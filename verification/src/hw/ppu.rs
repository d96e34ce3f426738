//! Picture processing unit: scanline renderer with per-mode dot timing.
use vstd::prelude::*;
use crate::hw::picture;
use crate::hw::picture::{
    Picture, DOTS_PER_LINE, IRQ_STAT, IRQ_VBLANK, LINES_PER_FRAME, MODE_DRAW, MODE_HBLANK,
    MODE_OAM, MODE_VBLANK, SCREEN_H, SCREEN_W,
};

verus! {

/// The four shades a DMG screen can show, darkest last, as 0xRRGGBB.
pub type DmgPalette = [u32; 4];

pub const PALETTE_GREY: DmgPalette = [0xffffff, 0xaaaaaa, 0x555555, 0x000000];

pub const PALETTE_DMG: DmgPalette = [0x9bbc0f, 0x8bac0f, 0x306230, 0x0f380f];

pub const PALETTE_POCKET: DmgPalette = [0xc4cfa1, 0x8b956d, 0x4d533c, 0x1f1f1f];

pub const PALETTE_LIGHT: DmgPalette = [0x00b581, 0x009a71, 0x00694a, 0x004f3b];

pub struct Ppu {
    /// Two 8 KiB banks; only bank 0 exists on DMG.
    pub vram: Vec<u8>,
    pub vram_bank: usize,
    pub oam: [u8; 0xa0],
    pub lcdc: u8,
    pub stat: u8,
    pub scy: u8,
    pub scx: u8,
    pub ly: u8,
    pub lyc: u8,
    pub bgp: u8,
    pub obp0: u8,
    pub obp1: u8,
    pub wy: u8,
    pub wx: u8,
    // CGB palette RAM, 8 palettes x 4 colours x 2 bytes.
    pub bg_pal: [u8; 64],
    pub obj_pal: [u8; 64],
    pub bcps: u8,
    pub ocps: u8,
    /// FF6C bit 0: when set, fall back to DMG's X-coordinate sprite priority.
    pub opri: u8,
    pub mode: u8,
    pub dots: u32,
    /// Counts only the lines the window actually drew on, which is not LY.
    pub window_line: u8,
    pub window_active: bool,
    /// STAT interrupts fire on the rising edge of the OR of all enabled sources.
    pub stat_line: bool,
    pub cgb: bool,
    pub dmg_palette: DmgPalette,
    /// Per-pixel record of the background for sprite mixing:
    /// bits 0-1 colour index, bit 7 the CGB "BG over OBJ" attribute.
    pub bg_line: [u8; 160],
    pub framebuffer: Vec<u32>,
    pub frame_ready: bool,
    /// Interrupt requests raised since they were last taken.
    pub irq: u8,
}

impl View for Ppu {
    type V = Picture;

    closed spec fn view(&self) -> Picture {
        Picture {
            vram: self.vram@,
            vram_bank: self.vram_bank,
            oam: self.oam@,
            lcdc: self.lcdc,
            stat: self.stat,
            scy: self.scy,
            scx: self.scx,
            ly: self.ly,
            lyc: self.lyc,
            bgp: self.bgp,
            obp0: self.obp0,
            obp1: self.obp1,
            wy: self.wy,
            wx: self.wx,
            bg_pal: self.bg_pal@,
            obj_pal: self.obj_pal@,
            bcps: self.bcps,
            ocps: self.ocps,
            opri: self.opri,
            mode: self.mode,
            dots: self.dots,
            window_line: self.window_line,
            window_active: self.window_active,
            stat_line: self.stat_line,
            cgb: self.cgb,
            dmg_palette: self.dmg_palette@,
            bg_line: self.bg_line@,
            framebuffer: self.framebuffer@,
            frame_ready: self.frame_ready,
            irq: self.irq,
        }
    }
}

proof fn lemma_bits(b: u8, n: u8)
    by (bit_vector)
    ensures
        (b >> n) & 1 <= 1,
        (b >> n) & 3 <= 3,
{
}

/// Expand a 15-bit CGB colour.
fn cgb_color(pal: &[u8; 64], palette: usize, index: usize) -> (rgb: u32)
    requires
        palette < 8,
        index < 4,
    ensures
        rgb == picture::cgb_rgb(pal@, palette as int, index as int),
{
    let off: usize = palette * 8 + index * 2;
    let raw: u32 = pal[off] as u32 + 256 * pal[off + 1] as u32;
    let r: u32 = raw % 32;
    let g: u32 = raw / 32 % 32;
    let b: u32 = raw / 1024 % 32;

    let cr: u32 = (r * 26 + g * 4 + b * 2) / 32;
    let cg: u32 = (g * 24 + b * 8) / 32;
    let cb: u32 = (r * 6 + g * 4 + b * 22) / 32;
    cr * 255 / 31 * 0x1_0000 + cg * 255 / 31 * 0x100 + cb * 255 / 31
}

fn color_at(lo: u8, hi: u8, bit: usize) -> (color: u8)
    requires
        bit < 8,
    ensures
        color == picture::plane_colour(lo, hi, bit as int),
        color < 4,
{
    proof {
        lemma_bits(lo, bit as u8);
        lemma_bits(hi, bit as u8);
    }
    let n: u8 = bit as u8;
    2 * ((hi >> n) & 1) + ((lo >> n) & 1)
}

impl Ppu {
    /// The invariant of the type.
    pub open spec fn wf(self) -> bool {
        self@.wf()
    }

    /// The fields that callers look at are what the view says.
    pub proof fn lemma_fields(self)
        ensures
            self@.vram == self.vram@,
            self@.oam == self.oam@,
            self@.framebuffer == self.framebuffer@,
            self@.frame_ready == self.frame_ready,
            self@.irq == self.irq,
    {
    }

    pub fn new(cgb: bool, dmg_palette: DmgPalette) -> (ppu: Self)
        ensures
            ppu.wf(),
            ppu@ == Picture::boot(cgb, dmg_palette@),
    {
        let ppu = Ppu {
            vram: vec![0; 0x4000],
            vram_bank: 0,
            oam: [0;0xa0],
            lcdc: 0x91,
            stat: 0x85,
            scy: 0,
            scx: 0,
            ly: 0,
            lyc: 0,
            bgp: 0xfc,
            obp0: 0xff,
            obp1: 0xff,
            wy: 0,
            wx: 0,
            bg_pal: [0xff;64],
            obj_pal: [0xff;64],
            bcps: 0,
            ocps: 0,
            opri: 0,
            mode: MODE_OAM,
            dots: 0,
            window_line: 0,
            window_active: false,
            stat_line: false,
            cgb,
            dmg_palette,
            bg_line: [0;160],
            framebuffer: vec![dmg_palette[0]; SCREEN_W * SCREEN_H],
            frame_ready: false,
            irq: 0,
        };
        assert(ppu@ =~= Picture::boot(cgb, dmg_palette@));
        ppu
    }

    pub fn set_dmg_palette(&mut self, palette: DmgPalette)
        requires
            old(self).wf(),
        ensures
            final(self).wf(),
            final(self)@ == (Picture { dmg_palette: palette@, ..old(self)@ }),
    {
        self.dmg_palette = palette;
    }

    fn lcd_on(&self) -> (on: bool)
        ensures
            on == self@.lcd_on(),
    {
        self.lcdc & 0x80 != 0
    }

    pub fn mode(&self) -> (mode: u8)
        ensures
            mode == self@.mode,
    {
        self.mode
    }

    pub fn ly(&self) -> (ly: u8)
        ensures
            ly == self@.ly,
    {
        self.ly
    }

    /// True during HBlank, which is when HDMA is allowed to move a block.
    pub fn in_hblank(&self) -> (yes: bool)
        ensures
            yes == self@.in_hblank(),
    {
        self.lcd_on() && self.mode == MODE_HBLANK
    }

    /// Hands over the interrupt requests raised since the last call.
    pub fn take_irq(&mut self) -> (irq: u8)
        requires
            old(self).wf(),
        ensures
            final(self).wf(),
            irq == old(self)@.irq,
            final(self)@ == (Picture { irq: 0, ..old(self)@ }),
    {
        let irq: u8 = self.irq;
        self.irq = 0;
        irq
    }

    /// Whether a frame has been finished since it was last taken.
    pub fn has_frame(&self) -> (ready: bool)
        ensures
            ready == self@.frame_ready,
    {
        self.frame_ready
    }

    /// Tells whether a frame has been finished since the last call.
    pub fn take_frame(&mut self) -> (ready: bool)
        requires
            old(self).wf(),
        ensures
            final(self).wf(),
            ready == old(self)@.frame_ready,
            final(self)@ == (Picture { frame_ready: false, ..old(self)@ }),
    {
        let ready = self.frame_ready;
        self.frame_ready = false;
        ready
    }

    /// The finished pixels, row by row.
    pub fn pixels(&self) -> (pixels: &[u32])
        ensures
            pixels@ == self@.framebuffer,
    {
        self.framebuffer.as_slice()
    }

    // ---- register access -------------------------------------------------

    pub fn read_reg(&self, addr: u16) -> (value: u8)
        ensures
            value == self@.reads(addr),
    {
        match addr {
            0xff40 => self.lcdc,
            0xff41 => self.stat | 0x80,
            0xff42 => self.scy,
            0xff43 => self.scx,
            0xff44 => self.ly,
            0xff45 => self.lyc,
            0xff47 => self.bgp,
            0xff48 => self.obp0,
            0xff49 => self.obp1,
            0xff4a => self.wy,
            0xff4b => self.wx,
            _ => {
                if !self.cgb {
                    return 0xff;
                }
                match addr {
                    0xff4f => 0xfe | self.vram_bank as u8,
                    0xff68 => self.bcps | 0x40,
                    0xff69 => self.bg_pal[(self.bcps % 64) as usize],
                    0xff6a => self.ocps | 0x40,
                    0xff6b => self.obj_pal[(self.ocps % 64) as usize],
                    0xff6c => self.opri | 0xfe,
                    _ => 0xff,
                }
            },
        }
    }

    fn set_mode(&mut self, mode: u8)
        ensures
            final(self)@ == old(self)@.with_mode(mode),
    {
        self.mode = mode;
        self.stat = (self.stat & 0xfc) | mode;
    }

    fn write_lcdc(&mut self, value: u8)
        requires
            old(self).wf(),
        ensures
            final(self).wf(),
            final(self)@ == old(self)@.lcdc_written(value),
    {
        let was_on = self.lcd_on();
        self.lcdc = value;
        if was_on && !self.lcd_on() {
            // Switching the LCD off parks it at the top of the frame.
            self.ly = 0;
            self.dots = 0;
            self.window_line = 0;
            self.set_mode(MODE_HBLANK);
            self.stat_line = false;
            self.framebuffer = vec![self.dmg_palette[0]; SCREEN_W * SCREEN_H];
            self.frame_ready = true;
        } else if !was_on && self.lcd_on() {
            self.dots = 0;
            self.ly = 0;
            self.set_mode(MODE_OAM);
        }
        assert(self@ =~= old(self)@.lcdc_written(value));
    }

    pub fn write_reg(&mut self, addr: u16, value: u8)
        requires
            old(self).wf(),
        ensures
            final(self).wf(),
            final(self)@ == old(self)@.written(addr, value),
    {
        match addr {
            0xff40 => self.write_lcdc(value),
            0xff41 => self.stat = (value & 0x78) | (self.stat & 0x07),
            0xff42 => self.scy = value,
            0xff43 => self.scx = value,
            0xff45 => self.lyc = value,
            0xff47 => self.bgp = value,
            0xff48 => self.obp0 = value,
            0xff49 => self.obp1 = value,
            0xff4a => self.wy = value,
            0xff4b => self.wx = value,
            _ => {
                if self.cgb {
                    self.write_cgb(addr, value);
                }
            },
        }
        assert(self@ =~= old(self)@.written(addr, value));
    }

    fn write_cgb(&mut self, addr: u16, value: u8)
        requires
            old(self).wf(),
            old(self)@.cgb,
            addr != 0xff40 && addr != 0xff41 && addr != 0xff42 && addr != 0xff43 && addr != 0xff45
                && !(0xff47 <= addr <= 0xff4b),
        ensures
            final(self).wf(),
            final(self)@ == old(self)@.written(addr, value),
    {
        match addr {
            0xff4f => self.vram_bank = (value % 2) as usize,
            0xff68 => self.bcps = value & 0xbf,
            0xff69 => {
                self.bg_pal[(self.bcps % 64) as usize] = value;
                if self.bcps & 0x80 != 0 {
                    self.bcps = (self.bcps & 0x80) | (self.bcps.wrapping_add(1) & 0x3f);
                }
            },
            0xff6a => self.ocps = value & 0xbf,
            0xff6b => {
                self.obj_pal[(self.ocps % 64) as usize] = value;
                if self.ocps & 0x80 != 0 {
                    self.ocps = (self.ocps & 0x80) | (self.ocps.wrapping_add(1) & 0x3f);
                }
            },
            0xff6c => self.opri = value & 1,
            _ => {},
        }
        assert(self@ =~= old(self)@.written(addr, value));
    }

    pub fn read_vram(&self, addr: u16) -> (value: u8)
        requires
            self.wf(),
            addr >= 0x8000,
            self@.vram_index(addr) < 0x4000,
        ensures
            value == self@.vram[self@.vram_index(addr)],
    {
        self.vram[self.vram_bank * 0x2000 + (addr as usize - 0x8000)]
    }

    pub fn write_vram(&mut self, addr: u16, value: u8)
        requires
            old(self).wf(),
            addr >= 0x8000,
            old(self)@.vram_index(addr) < 0x4000,
        ensures
            final(self).wf(),
            final(self)@ == old(self)@.vram_written(addr, value),
    {
        self.vram[self.vram_bank * 0x2000 + (addr as usize - 0x8000)] = value;
    }

    /// Bank-explicit access to video memory.
    pub fn vram_byte(&self, bank: usize, offset: usize) -> (value: u8)
        requires
            self.wf(),
            bank * 0x2000 + offset < 0x4000,
        ensures
            value == self@.vram[bank * 0x2000 + offset],
    {
        self.vram[bank * 0x2000 + offset]
    }

    pub fn vram_bank(&self) -> (bank: usize)
        ensures
            bank == self@.vram_bank,
    {
        self.vram_bank
    }

    pub fn read_oam(&self, addr: u16) -> (value: u8)
        requires
            0xfe00 <= addr <= 0xfe9f,
        ensures
            value == self@.oam[addr - 0xfe00],
    {
        self.oam[addr as usize - 0xfe00]
    }

    pub fn write_oam(&mut self, addr: u16, value: u8)
        requires
            old(self).wf(),
            0xfe00 <= addr <= 0xfe9f,
        ensures
            final(self).wf(),
            final(self)@ == (Picture {
                oam: old(self)@.oam.update(addr - 0xfe00, value),
                ..old(self)@
            }),
    {
        self.oam[addr as usize - 0xfe00] = value;
    }
}

// ---- rendering -----------------------------------------------------------

proof fn lemma_placed(pic: Picture, s: Seq<int>, i: int, pos: int)
    requires
        0 <= pos <= s.len(),
        forall|j: int| pos <= j < s.len() ==> pic.oam[s[j] * 4 + 1] > pic.oam[i * 4 + 1],
        pos == 0 || pic.oam[s[pos - 1] * 4 + 1] <= pic.oam[i * 4 + 1],
    ensures
        pic.placed(s, i) == s.insert(pos, i),
    decreases s.len(),
{
    if pos < s.len() {
        lemma_placed(pic, s.drop_last(), i, pos);
        assert(s.insert(pos, i) =~= s.drop_last().insert(pos, i).push(s.last()));
    } else {
        assert(s.insert(pos, i) =~= s.push(i));
    }
}

/// The numbers in `v`, as integers.
spec fn ints(v: Seq<usize>) -> Seq<int> {
    Seq::new(v.len(), |i: int| v[i] as int)
}

proof fn lemma_found(pic: Picture, n: nat)
    ensures
        pic.found(n).len() <= 10,
        pic.found(n).len() <= n,
        forall|k: int|
            0 <= k < pic.found(n).len() ==> 0 <= #[trigger] pic.found(n)[k] < n && pic.on_line(
                pic.found(n)[k],
            ),
    decreases n,
{
    if n > 0 {
        lemma_found(pic, (n - 1) as nat);
    }
}

proof fn lemma_placed_members(pic: Picture, s: Seq<int>, i: int, ok: spec_fn(int) -> bool)
    requires
        forall|k: int| 0 <= k < s.len() ==> ok(#[trigger] s[k]),
        ok(i),
    ensures
        pic.placed(s, i).len() == s.len() + 1,
        forall|k: int| 0 <= k <= s.len() ==> ok(#[trigger] pic.placed(s, i)[k]),
    decreases s.len(),
{
    if s.len() > 0 {
        assert(ok(s[s.len() - 1]));
        assert forall|k: int| 0 <= k < s.drop_last().len() implies ok(#[trigger] s.drop_last()[k]) by {
            assert(s.drop_last()[k] == s[k]);
        }
        lemma_placed_members(pic, s.drop_last(), i, ok);
    }
}

proof fn lemma_by_column_members(pic: Picture, s: Seq<int>, ok: spec_fn(int) -> bool)
    requires
        forall|k: int| 0 <= k < s.len() ==> ok(#[trigger] s[k]),
    ensures
        pic.by_column(s).len() == s.len(),
        forall|k: int| 0 <= k < s.len() ==> ok(#[trigger] pic.by_column(s)[k]),
    decreases s.len(),
{
    if s.len() > 0 {
        assert(ok(s[s.len() - 1]));
        assert forall|k: int| 0 <= k < s.drop_last().len() implies ok(#[trigger] s.drop_last()[k]) by {
            assert(s.drop_last()[k] == s[k]);
        }
        lemma_by_column_members(pic, s.drop_last(), ok);
        lemma_placed_members(pic, pic.by_column(s.drop_last()), s.last(), ok);
    }
}

/// At most ten sprites show on a line, and each of them is one of the forty that
/// intersects it.
pub proof fn law_ten_per_line(pic: Picture)
    ensures
        pic.visible().len() <= 10,
        forall|k: int|
            0 <= k < pic.visible().len() ==> 0 <= #[trigger] pic.visible()[k] < 40 && pic.on_line(
                pic.visible()[k],
            ),
{
    lemma_found(pic, 40);
    let s = pic.found(40);
    let ok = |i: int| 0 <= i < 40 && pic.on_line(i);
    lemma_by_column_members(pic, s, ok);
}

impl Ppu {
    fn window_on(&self) -> (on: bool)
        ensures
            on == self@.window_on(),
    {
        self.lcdc & 0x20 != 0 && self.wy <= self.ly && self.wx <= 166
    }

    fn sprite_height(&self) -> (height: usize)
        ensures
            height == self@.sprite_height(),
    {
        if self.lcdc & 0x04 != 0 {
            16
        } else {
            8
        }
    }

    /// OAM entries that intersect the current line, already in draw order
    /// (later entries paint first so earlier ones win).
    fn visible_sprites(&self) -> (sprites: Vec<usize>)
        requires
            self@.shaped(),
        ensures
            ints(sprites@) == self@.visible(),
    {
        if self.lcdc & 0x02 == 0 {
            let none: Vec<usize> = Vec::new();
            assert(ints(none@) =~= self@.visible());
            return none;
        }
        let height: usize = self.sprite_height();
        let line: usize = self.ly as usize + 16;

        let mut found: Vec<usize> = Vec::new();
        for i in 0..40usize
            invariant
                self@.shaped(),
                height == self@.sprite_height(),
                line == self@.ly + 16,
                ints(found@) == self@.found(i as nat),
        {
            let y: usize = self.oam[i * 4] as usize;
            assert(self@.found((i + 1) as nat) == {
                let fewer = self@.found(i as nat);
                if fewer.len() < 10 && self@.on_line(i as int) {
                    fewer.push(i as int)
                } else {
                    fewer
                }
            });
            if found.len() < 10 && y <= line && line < y + height {
                found.push(i);
            }
            assert(ints(found@) =~= self@.found((i + 1) as nat));
        }
        // DMG resolves overlap by X first; CGB uses OAM order unless OPRI says otherwise.
        if !self.cgb || self.opri & 1 != 0 {
            proof {
                lemma_found(self@, 40);
                assert forall|k: int| 0 <= k < found@.len() implies found@[k] < 40 by {
                    assert(ints(found@)[k] == found@[k]);
                }
            }
            found = self.sort_by_column(found);
        }
        let mut order: Vec<usize> = Vec::new();
        let n: usize = found.len();
        for k in 0..n
            invariant
                n == found@.len(),
                order@ == found@.reverse().take(k as int),
        {
            order.push(found[n - 1 - k]);
            assert(order@ =~= found@.reverse().take(k + 1));
        }
        assert(found@.reverse().take(n as int) =~= found@.reverse());
        assert(ints(order@) =~= ints(found@).reverse());
        order
    }

    fn sort_by_column(&self, found: Vec<usize>) -> (sorted: Vec<usize>)
        requires
            self@.shaped(),
            forall|k: int| 0 <= k < found@.len() ==> found@[k] < 40,
        ensures
            ints(sorted@) == self@.by_column(ints(found@)),
            sorted@.len() == found@.len(),
    {
        let ghost all = ints(found@);
        let mut sorted: Vec<usize> = Vec::new();
        assert(ints(sorted@) =~= self@.by_column(all.take(0)));
        for k in 0..found.len()
            invariant
                self@.shaped(),
                all == ints(found@),
                forall|j: int| 0 <= j < found@.len() ==> found@[j] < 40,
                sorted@.len() == k,
                forall|j: int| 0 <= j < sorted@.len() ==> sorted@[j] < 40,
                ints(sorted@) == self@.by_column(all.take(k as int)),
        {
            let i: usize = found[k];
            let x: u8 = self.oam[i * 4 + 1];
            let mut pos: usize = sorted.len();
            while pos > 0 && self.oam[sorted[pos - 1] * 4 + 1] > x
                invariant
                    self@.shaped(),
                    pos <= sorted@.len(),
                    i < 40,
                    x == self.oam@[i * 4 + 1],
                    forall|j: int| 0 <= j < sorted@.len() ==> sorted@[j] < 40,
                    forall|j: int|
                        pos <= j < sorted@.len() ==> self.oam@[sorted@[j] * 4 + 1] > x,
                decreases pos,
            {
                pos -= 1;
            }
            let ghost before = ints(sorted@);
            proof {
                assert(pos > 0 ==> before[pos - 1] == sorted@[pos - 1]);
                assert forall|j: int| pos <= j < before.len() implies self@.oam[before[j] * 4 + 1]
                    > self@.oam[i * 4 + 1] by {
                    assert(before[j] == sorted@[j]);
                }
                lemma_placed(self@, before, i as int, pos as int);
                assert(all.take(k + 1).drop_last() =~= all.take(k as int));
            }
            sorted.insert(pos, i);
            assert(ints(sorted@) =~= before.insert(pos as int, i as int));
        }
        assert(all.take(found@.len() as int) =~= all);
        sorted
    }

    /// Mode 3 stretches for fine scroll, an active window, and each sprite fetched.
    fn draw_length(&self) -> (len: u32)
        requires
            self@.shaped(),
        ensures
            len == self@.draw_length(),
            len <= 289,
    {
        let mut len: u32 = 172 + (self.scx % 8) as u32;
        if self.window_on() {
            len += 6;
        }
        proof {
            law_ten_per_line(self@);
        }
        let sprites = self.visible_sprites();
        assert(ints(sprites@).len() == sprites@.len());
        len + 6 * sprites.len() as u32
    }

    /// Where column `x` of the current line lies in the tile map that shows there.
    fn map_point(&self, x: usize) -> (point: (usize, usize, usize))
        requires
            self@.shaped(),
            x < 160,
        ensures
            (point.0 as int, point.1 as int, point.2 as int) == self@.map_point(x as int),
            point.0 == 0x1800 || point.0 == 0x1c00,
            point.1 < 256,
            point.2 < 256,
    {
        if self.window_on() && x + 7 >= self.wx as usize {
            let base: usize = if self.lcdc & 0x40 != 0 {
                0x1c00
            } else {
                0x1800
            };
            (base, x + 7 - self.wx as usize, self.window_line as usize)
        } else {
            let base: usize = if self.lcdc & 0x08 != 0 {
                0x1c00
            } else {
                0x1800
            };
            (base, (x + self.scx as usize) % 256, (self.ly as usize + self.scy as usize) % 256)
        }
    }

    /// The attributes and the colour of column `x` of the background.
    fn background_colour(&self, x: usize) -> (found: (u8, u8))
        requires
            self@.shaped(),
            x < 160,
        ensures
            found.0 == self@.bg_attr(x as int),
            found.1 == self@.bg_colour(x as int),
            found.1 < 4,
    {
        let (base, mx, my) = self.map_point(x);
        let map_index: usize = base + my / 8 * 32 + mx / 8;
        assert(map_index == self@.map_index(x as int));
        let tile: u8 = self.vram[map_index];
        let attr: u8 = if self.cgb {
            self.vram[0x2000 + map_index]
        } else {
            0
        };
        let tile_addr: usize = if self.lcdc & 0x10 != 0 || tile >= 128 {
            tile as usize * 16
        } else {
            0x1000 + tile as usize * 16
        };
        let py: usize = if attr & 0x40 != 0 {
            7 - my % 8
        } else {
            my % 8
        };
        let bit: usize = if attr & 0x20 != 0 {
            mx % 8
        } else {
            7 - mx % 8
        };
        let bank: usize = if attr & 0x08 != 0 {
            0x2000
        } else {
            0
        };
        let at: usize = bank + tile_addr + py * 2;
        (attr, color_at(self.vram[at], self.vram[at + 1], bit))
    }

    /// The mixing record and the pixel of column `x` of the background.
    fn background(&self, x: usize) -> (column: (u8, u32))
        requires
            self@.shaped(),
            !self@.blanked(),
            x < 160,
        ensures
            column.0 == self@.bg_entry(x as int),
            column.1 == self@.bg_pixel(x as int),
    {
        let (attr, color) = self.background_colour(x);
        let entry: u8 = color | (attr & 0x80);
        let pixel: u32 = if self.cgb {
            cgb_color(&self.bg_pal, (attr % 8) as usize, color as usize)
        } else {
            self.shade(self.bgp, color)
        };
        (entry, pixel)
    }

    fn shade(&self, register: u8, color: u8) -> (rgb: u32)
        requires
            self@.shaped(),
            color < 4,
        ensures
            rgb == self@.shade(register, color as int),
    {
        proof {
            lemma_bits(register, (2 * color) as u8);
        }
        self.dmg_palette[((register >> (2 * color)) & 3) as usize]
    }

    fn render_background(&mut self, line: usize)
        requires
            old(self)@.shaped(),
            line == old(self)@.ly,
            line < 144,
        ensures
            final(self)@ == ({
                let was = old(self)@;
                let shown = !was.blanked() && was.window_on();
                Picture {
                    framebuffer: was.with_line(|x: int| was.bg_pixel(x)),
                    bg_line: Seq::new(160, |x: int| was.bg_entry(x)),
                    window_line: if shown {
                        was.window_line.wrapping_add(1)
                    } else {
                        was.window_line
                    },
                    window_active: was.window_active || shown,
                    ..was
                }
            }),
    {
        let ghost was = self@;
        // On DMG, LCDC bit 0 blanks background and window entirely.
        // On CGB the same bit only drops their priority over sprites.
        let blank = !self.cgb && self.lcdc & 0x01 == 0;
        for x in 0..160usize
            invariant
                was.shaped(),
                self@.shaped(),
                line == was.ly,
                line < 144,
                blank == was.blanked(),
                self@ == (Picture {
                    framebuffer: self@.framebuffer,
                    bg_line: self@.bg_line,
                    ..was
                }),
                forall|p: int|
                    0 <= p < 160 * 144 ==> #[trigger] self@.framebuffer[p] == if line * 160 <= p
                        < line * 160 + x {
                        was.bg_pixel(p - line * 160)
                    } else {
                        was.framebuffer[p]
                    },
                forall|p: int| 0 <= p < x ==> #[trigger] self@.bg_line[p] == was.bg_entry(p),
        {
            let (entry, pixel): (u8, u32) = if blank {
                (0, self.dmg_palette[0])
            } else {
                self.background(x)
            };
            proof {
                lemma_same_background(was, self@, x as int);
            }
            self.bg_line[x] = entry;
            self.framebuffer[line * 160 + x] = pixel;
        }
        // The window's own line counter only moves on lines where it drew.
        if !blank && self.window_on() {
            self.window_line = self.window_line.wrapping_add(1);
            self.window_active = true;
        }
        proof {
            let shown = !was.blanked() && was.window_on();
            let goal = Picture {
                framebuffer: was.with_line(|x: int| was.bg_pixel(x)),
                bg_line: Seq::new(160, |x: int| was.bg_entry(x)),
                window_line: if shown {
                    was.window_line.wrapping_add(1)
                } else {
                    was.window_line
                },
                window_active: was.window_active || shown,
                ..was
            };
            assert(self@.framebuffer =~= goal.framebuffer);
            assert(self@.bg_line =~= goal.bg_line);
            assert(self@ =~= goal);
        }
    }
}

/// The background does not depend on what has been drawn.
proof fn lemma_same_background(was: Picture, now: Picture, x: int)
    requires
        now == (Picture { framebuffer: now.framebuffer, bg_line: now.bg_line, ..was }),
    ensures
        now.bg_entry(x) == was.bg_entry(x),
        now.bg_pixel(x) == was.bg_pixel(x),
{
}

/// Sprites do not depend on what has been drawn.
proof fn lemma_same_sprites(was: Picture, now: Picture)
    requires
        now == (Picture {
            framebuffer: now.framebuffer,
            bg_line: now.bg_line,
            window_line: now.window_line,
            window_active: now.window_active,
            ..was
        }),
    ensures
        forall|n: nat| #[trigger] now.found(n) == was.found(n),
        now.visible() == was.visible(),
        forall|i: int, x: int, entry: u8| #[trigger]
            now.paints(i, x, entry) == was.paints(i, x, entry),
        forall|i: int, c: int| #[trigger] now.sprite_rgb(i, c) == was.sprite_rgb(i, c),
        forall|i: int, x: int| #[trigger] now.sprite_colour(i, x) == was.sprite_colour(i, x),
{
    assert forall|n: nat| #[trigger] now.found(n) == was.found(n) by {
        lemma_same_found(was, now, n);
    }
    lemma_same_order(was, now, was.found(40));
}

proof fn lemma_same_found(was: Picture, now: Picture, n: nat)
    requires
        now.oam == was.oam,
        now.lcdc == was.lcdc,
        now.ly == was.ly,
    ensures
        now.found(n) == was.found(n),
    decreases n,
{
    if n > 0 {
        lemma_same_found(was, now, (n - 1) as nat);
    }
}

proof fn lemma_same_placed(was: Picture, now: Picture, s: Seq<int>, i: int)
    requires
        now.oam == was.oam,
    ensures
        now.placed(s, i) == was.placed(s, i),
    decreases s.len(),
{
    if s.len() > 0 {
        lemma_same_placed(was, now, s.drop_last(), i);
    }
}

proof fn lemma_same_order(was: Picture, now: Picture, s: Seq<int>)
    requires
        now.oam == was.oam,
    ensures
        now.by_column(s) == was.by_column(s),
    decreases s.len(),
{
    if s.len() > 0 {
        lemma_same_order(was, now, s.drop_last());
        lemma_same_placed(was, now, was.by_column(s.drop_last()), s.last());
    }
}

proof fn lemma_same_over(
    was: Picture,
    now: Picture,
    sprites: Seq<int>,
    x: int,
    entry: u8,
    under: u32,
)
    requires
        now == (Picture {
            framebuffer: now.framebuffer,
            bg_line: now.bg_line,
            window_line: now.window_line,
            window_active: now.window_active,
            ..was
        }),
    ensures
        now.over(sprites, x, entry, under) == was.over(sprites, x, entry, under),
    decreases sprites.len(),
{
    if sprites.len() > 0 {
        lemma_same_over(was, now, sprites.drop_last(), x, entry, under);
    }
}

proof fn lemma_same_length(was: Picture, now: Picture)
    requires
        now == (Picture { dots: now.dots, ..was }),
    ensures
        now.draw_length() == was.draw_length(),
{
    lemma_same_found(was, now, 40);
    lemma_same_order(was, now, was.found(40));
}

impl Ppu {
    /// Paints sprite `i` over the current line.
    fn paint_sprite(&mut self, line: usize, i: usize)
        requires
            old(self)@.shaped(),
            line == old(self)@.ly,
            line < 144,
            i < 40,
            old(self)@.on_line(i as int),
        ensures
            final(self)@.shaped(),
            final(self)@ == (Picture { framebuffer: final(self)@.framebuffer, ..old(self)@ }),
            forall|p: int|
                0 <= p < 160 * 144 ==> #[trigger] final(self)@.framebuffer[p] == ({
                    let x = p - line * 160;
                    if 0 <= x < 160 && old(self)@.paints(i as int, x, old(self)@.bg_line[x]) {
                        old(self)@.sprite_rgb(i as int, old(self)@.sprite_colour(i as int, x))
                    } else {
                        old(self)@.framebuffer[p]
                    }
                }),
    {
        let ghost was = self@;
        let height: usize = self.sprite_height();
        // CGB only: LCDC bit 0 clear lets every sprite through regardless of priority.
        let bg_master_priority = !self.cgb || self.lcdc & 0x01 != 0;
        let y: usize = self.oam[i * 4] as usize;
        let left: usize = self.oam[i * 4 + 1] as usize;
        let tile: u8 = self.oam[i * 4 + 2];
        let attr: u8 = self.oam[i * 4 + 3];
        let row: usize = if attr & 0x40 != 0 {
            height - 1 - (line + 16 - y)
        } else {
            line + 16 - y
        };
        // 8x16 sprites ignore the low bit of the tile number.
        let first: usize = if height == 16 {
            (tile - tile % 2) as usize
        } else {
            tile as usize
        };
        let bank: usize = if self.cgb && attr & 0x08 != 0 {
            0x2000
        } else {
            0
        };
        let at: usize = bank + first * 16 + row * 2;
        let lo: u8 = self.vram[at];
        let hi: u8 = self.vram[at + 1];

        for px in 0..8usize
            invariant
                was.shaped(),
                self@.shaped(),
                line == was.ly,
                line < 144,
                i < 40,
                left == was.oam[i * 4 + 1],
                attr == was.oam[i * 4 + 3],
                bg_master_priority == (!was.cgb || was.lcdc & 0x01 != 0),
                forall|x: int|
                    left - 8 <= x < left ==> #[trigger] was.sprite_colour(i as int, x)
                        == picture::plane_colour(
                        lo,
                        hi,
                        if attr & 0x20 != 0 {
                            x - (left - 8)
                        } else {
                            7 - (x - (left - 8))
                        },
                    ),
                self@ == (Picture { framebuffer: self@.framebuffer, ..was }),
                forall|p: int|
                    0 <= p < 160 * 144 ==> #[trigger] self@.framebuffer[p] == ({
                        let x = p - line * 160;
                        if 0 <= x < 160 && x < left - 8 + px && was.paints(
                            i as int,
                            x,
                            was.bg_line[x],
                        ) {
                            was.sprite_rgb(i as int, was.sprite_colour(i as int, x))
                        } else {
                            was.framebuffer[p]
                        }
                    }),
        {
            let ghost fb = self@.framebuffer;
            let ghost x = left - 8 + px;
            if left + px >= 8 && left + px < 168 {
                let sx: usize = left + px - 8;
                let bit: usize = if attr & 0x20 != 0 {
                    px
                } else {
                    7 - px
                };
                let color: u8 = color_at(lo, hi, bit);
                assert(color == was.sprite_colour(i as int, sx as int));
                let entry: u8 = self.bg_line[sx];
                let hidden = bg_master_priority && (attr & 0x80 != 0 || entry & 0x80 != 0) && entry
                    & 3 != 0;
                // Colour 0 is transparent for sprites.
                if color != 0 && !hidden {
                    let rgb: u32 = if self.cgb {
                        cgb_color(&self.obj_pal, (attr % 8) as usize, color as usize)
                    } else {
                        let pal: u8 = if attr & 0x10 != 0 {
                            self.obp1
                        } else {
                            self.obp0
                        };
                        self.shade(pal, color)
                    };
                    self.framebuffer[line * 160 + sx] = rgb;
                }
            }
        }
        proof {
            assert forall|x: int| x >= left implies was.sprite_colour(i as int, x) == 0 by {}
        }
    }

    fn render_sprites(&mut self, line: usize)
        requires
            old(self)@.shaped(),
            line == old(self)@.ly,
            line < 144,
        ensures
            final(self)@.shaped(),
            final(self)@ == (Picture {
                framebuffer: old(self)@.with_line(
                    |x: int|
                        old(self)@.over(
                            old(self)@.visible(),
                            x,
                            old(self)@.bg_line[x],
                            old(self)@.framebuffer[line * 160 + x],
                        ),
                ),
                ..old(self)@
            }),
    {
        let ghost was = self@;
        let sprites = self.visible_sprites();
        let ghost all = was.visible();
        proof {
            law_ten_per_line(was);
        }
        for k in 0..sprites.len()
            invariant
                was.shaped(),
                self@.shaped(),
                line == was.ly,
                line < 144,
                all == was.visible(),
                ints(sprites@) == all,
                forall|j: int|
                    0 <= j < all.len() ==> 0 <= #[trigger] all[j] < 40 && was.on_line(all[j]),
                self@ == (Picture { framebuffer: self@.framebuffer, ..was }),
                forall|p: int|
                    0 <= p < 160 * 144 ==> #[trigger] self@.framebuffer[p] == ({
                        let x = p - line * 160;
                        if 0 <= x < 160 {
                            was.over(
                                all.take(k as int),
                                x,
                                was.bg_line[x],
                                was.framebuffer[line * 160 + x],
                            )
                        } else {
                            was.framebuffer[p]
                        }
                    }),
        {
            let ghost before = self@;
            let i: usize = sprites[k];
            proof {
                assert(all[k as int] == i);
                assert(all.take(k + 1).drop_last() =~= all.take(k as int));
                assert(all.take(k + 1).last() == i);
                lemma_same_sprites(was, before);
            }
            self.paint_sprite(line, i);
        }
        assert(all.take(all.len() as int) =~= all);
        assert(self@.framebuffer =~= was.with_line(
            |x: int|
                was.over(all, x, was.bg_line[x], was.framebuffer[line * 160 + x]),
        ));
    }

    fn render_scanline(&mut self)
        requires
            old(self)@.shaped(),
        ensures
            final(self)@.shaped(),
            final(self)@ == old(self)@.drawn(),
    {
        let ghost was = self@;
        let line: usize = self.ly as usize;
        if line >= SCREEN_H {
            return ;
        }
        self.render_background(line);
        let ghost mid = self@;
        self.render_sprites(line);
        proof {
            lemma_same_sprites(was, mid);
            assert forall|p: int| 0 <= p < 160 * 144 implies #[trigger] self@.framebuffer[p]
                == was.drawn().framebuffer[p] by {
                let x = p - line * 160;
                if 0 <= x < 160 {
                    lemma_same_over(was, mid, was.visible(), x, was.bg_entry(x), was.bg_pixel(x));
                }
            }
            assert(self@.framebuffer =~= was.drawn().framebuffer);
            assert(self@ =~= was.drawn());
        }
    }

    fn advance_line(&mut self)
        requires
            old(self)@.ly < LINES_PER_FRAME,
        ensures
            final(self)@ == old(self)@.next_line(),
    {
        self.ly = (self.ly + 1) % LINES_PER_FRAME;
        if self.ly == 0 {
            self.window_line = 0;
        }
    }

    /// STAT's interrupt line is level-triggered internally; only its rise fires.
    fn update_stat_line(&mut self)
        ensures
            final(self)@ == old(self)@.stat_sampled(),
    {
        let coincidence = self.ly == self.lyc;
        if coincidence {
            self.stat = self.stat | 0x04;
        } else {
            self.stat = self.stat & !0x04;
        }
        let line = (self.stat & 0x40 != 0 && coincidence) || (self.stat & 0x20 != 0 && self.mode
            == MODE_OAM) || (self.stat & 0x10 != 0 && self.mode == MODE_VBLANK) || (self.stat & 0x08
            != 0 && self.mode == MODE_HBLANK);
        if line && !self.stat_line {
            self.irq = self.irq | IRQ_STAT;
        }
        self.stat_line = line;
    }

    fn tick4(&mut self)
        requires
            old(self).wf(),
        ensures
            final(self).wf(),
            final(self)@ == old(self)@.ticked(),
    {
        if self.mode == MODE_DRAW {
            let len: u32 = self.draw_length();
            self.dots = self.dots + 4;
            proof {
                lemma_same_length(old(self)@, self@);
            }
            if self.dots >= 80 + len {
                self.render_scanline();
                self.set_mode(MODE_HBLANK);
            }
        } else {
            self.dots = self.dots + 4;
            if self.mode == MODE_OAM && self.dots >= 80 {
                self.set_mode(MODE_DRAW);
            } else if self.mode == MODE_HBLANK && self.dots >= DOTS_PER_LINE {
                self.dots = self.dots - DOTS_PER_LINE;
                self.advance_line();
                if self.ly == SCREEN_H as u8 {
                    self.set_mode(MODE_VBLANK);
                    self.irq = self.irq | IRQ_VBLANK;
                    self.frame_ready = true;
                } else {
                    self.set_mode(MODE_OAM);
                }
            } else if self.mode == MODE_VBLANK && self.dots >= DOTS_PER_LINE {
                self.dots = self.dots - DOTS_PER_LINE;
                self.advance_line();
                if self.ly == 0 {
                    self.set_mode(MODE_OAM);
                }
            }
        }
        self.update_stat_line();
    }

    pub fn step(&mut self, t: u32)
        requires
            old(self).wf(),
        ensures
            final(self).wf(),
            final(self)@ == old(self)@.stepped(t),
    {
        if !self.lcd_on() {
            return ;
        }
        for n in 0..t / 4
            invariant
                self.wf(),
                self@ == old(self)@.ticks(n as nat),
        {
            self.tick4();
        }
    }
}

} // verus!
