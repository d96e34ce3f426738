//! How the screen is swept: what a line's 456 dots are spent on, what the status register
//! says meanwhile, and what the registers are for.
use vstd::prelude::*;
use crate::hw::bits;
use crate::hw::picture::Picture;

verus! {

/// Four dots of a visible line: 80 dots of searching OAM, mode 2; then drawing, mode 3, for
/// 172 dots and a few more for fine scrolling, the window and each sprite; then rest, mode
/// 0, until the line's 456 dots are over.
#[verifier::rlimit(40)]
pub proof fn law_line(pic: Picture)
    requires
        pic.wf(),
    ensures
        ({
            let next = pic.ticked();
            let dots = pic.dots + 4;
            let drawing = 172 + pic.scx % 8 + (if pic.lcdc / 32 % 2 == 1 && pic.wy <= pic.ly
                && pic.wx <= 166 {
                6int
            } else {
                0
            }) + 6 * pic.visible().len();
            &&& pic.mode == 2 && dots < 80 ==> next.mode == 2 && next.ly == pic.ly
            &&& pic.mode == 2 && dots >= 80 ==> next.mode == 3 && next.ly == pic.ly
            &&& pic.mode == 3 && dots < 80 + drawing ==> next.mode == 3 && next.framebuffer
                == pic.framebuffer
            &&& pic.mode == 3 && dots >= 80 + drawing ==> next.mode == 0 && next.framebuffer
                == pic.drawn().framebuffer && next.ly == pic.ly
            &&& pic.mode == 0 && dots < 456 ==> next.mode == 0 && next.ly == pic.ly
            &&& pic.mode == 0 && dots >= 456 && pic.ly < 143 ==> next.mode == 2 && next.ly == pic.ly
                + 1
            &&& pic.mode != 3 ==> next.framebuffer == pic.framebuffer
        }),
{
    bits::lemma_byte(pic.lcdc);
    let moved = Picture { dots: (pic.dots + 4) as u32, ..pic };
    lemma_same_sprites(pic, moved);
    if pic.mode == 3 && moved.dots >= 80 + moved.draw_length() {
        assert(moved.drawn().framebuffer =~= pic.drawn().framebuffer) by {
            lemma_same_line(pic, moved);
        }
    }
}

/// The dots do not tell on the sprites.
proof fn lemma_same_found(a: Picture, b: Picture, n: nat)
    requires
        b == (Picture { dots: b.dots, ..a }),
    ensures
        a.found(n) == b.found(n),
    decreases n,
{
    if n > 0 {
        lemma_same_found(a, b, (n - 1) as nat);
        assert(a.on_line(n - 1) == b.on_line(n - 1));
    }
}

proof fn lemma_same_placed(a: Picture, b: Picture, s: Seq<int>, i: int)
    requires
        b == (Picture { dots: b.dots, ..a }),
    ensures
        a.placed(s, i) == b.placed(s, i),
    decreases s.len(),
{
    if s.len() > 0 {
        lemma_same_placed(a, b, s.drop_last(), i);
    }
}

proof fn lemma_same_column(a: Picture, b: Picture, s: Seq<int>)
    requires
        b == (Picture { dots: b.dots, ..a }),
    ensures
        a.by_column(s) == b.by_column(s),
    decreases s.len(),
{
    if s.len() > 0 {
        lemma_same_column(a, b, s.drop_last());
        lemma_same_placed(a, b, a.by_column(s.drop_last()), s.last());
    }
}

proof fn lemma_same_sprites(a: Picture, b: Picture)
    requires
        b == (Picture { dots: b.dots, ..a }),
    ensures
        a.visible() == b.visible(),
{
    lemma_same_found(a, b, 40);
    lemma_same_column(a, b, a.found(40));
}

proof fn lemma_same_over(a: Picture, b: Picture, s: Seq<int>, x: int, entry: u8, under: u32)
    requires
        b == (Picture { dots: b.dots, ..a }),
    ensures
        a.over(s, x, entry, under) == b.over(s, x, entry, under),
    decreases s.len(),
{
    if s.len() > 0 {
        lemma_same_over(a, b, s.drop_last(), x, entry, under);
        assert(a.sprite_colour(s.last(), x) == b.sprite_colour(s.last(), x));
        assert(a.paints(s.last(), x, entry) == b.paints(s.last(), x, entry));
    }
}

proof fn lemma_same_line(a: Picture, b: Picture)
    requires
        b == (Picture { dots: b.dots, ..a }),
    ensures
        a.drawn().framebuffer == b.drawn().framebuffer,
{
    lemma_same_sprites(a, b);
    assert forall|x: int| #[trigger] a.pixel(x) == b.pixel(x) by {
        assert(a.map_point(x) == b.map_point(x));
        assert(a.bg_entry(x) == b.bg_entry(x));
        assert(a.bg_pixel(x) == b.bg_pixel(x));
        lemma_same_over(a, b, a.visible(), x, a.bg_entry(x), a.bg_pixel(x));
    }
    assert(a.drawn().framebuffer =~= b.drawn().framebuffer);
}

/// The end of a frame: after line 143 come ten lines of vertical blank, mode 1, which asks
/// for the interrupt of bit 0 as it begins and for none later; after line 153 comes line 0.
#[verifier::rlimit(40)]
pub proof fn law_blank(pic: Picture)
    requires
        pic.wf(),
        pic.dots + 4 >= 456,
    ensures
        ({
            let next = pic.ticked();
            &&& pic.ly == 143 && pic.mode == 0 ==> next.mode == 1 && next.ly == 144
                && next.frame_ready && (next.irq == pic.irq | 1 || next.irq == pic.irq | 1 | 2)
            &&& pic.mode == 1 && pic.ly < 153 ==> next.mode == 1 && next.ly == pic.ly + 1
            &&& pic.mode == 1 && pic.ly == 153 ==> next.mode == 2 && next.ly == 0
                && next.window_line == 0
            &&& pic.ly != 143 ==> next.irq == pic.irq || next.irq == pic.irq | 2
            &&& pic.ly != 143 ==> next.frame_ready == pic.frame_ready
        }),
{
}

/// What the status register reads as after any four dots: the mode in its low two bits, and
/// in bit 2 whether the line is the one that LYC names.
#[verifier::rlimit(40)]
pub proof fn law_status(pic: Picture)
    requires
        pic.wf(),
        pic.stat % 4 == pic.mode,
    ensures
        pic.ticked().reads(0xff41) % 4 == pic.ticked().mode,
        pic.ticked().reads(0xff41) / 4 % 2 == 1 <==> pic.ticked().ly == pic.ticked().lyc,
        pic.ticked().reads(0xff41) / 8 % 16 == pic.stat / 8 % 16,
        pic.ticked().reads(0xff41) >= 128,
        pic.ticked().stat % 4 == pic.ticked().mode,
        pic.ticked().reads(0xff44) == pic.ticked().ly,
{
    let moved = Picture { dots: (pic.dots + 4) as u32, ..pic };
    let next = moved.advanced();
    lemma_mode_kept(moved);
    lemma_sampled_stat(next);
    lemma_status_bits(next.stat, pic.ticked().stat, next.ly == next.lyc);
    lemma_enables(pic);
    assert(pic.ticked() == next.stat_sampled());
}

proof fn lemma_status_bits(s: u8, out: u8, hit: bool)
    requires
        out == s / 8 * 8 + (if hit {
            4int
        } else {
            0
        }) + s % 4,
    ensures
        out % 4 == s % 4,
        (out % 128 + 128) % 4 == s % 4,
        (out % 128 + 128) / 4 % 2 == 1 <==> hit,
        (out % 128 + 128) / 8 % 16 == s / 8 % 16,
{
}

/// The enable bits do not move with time.
proof fn lemma_enables(pic: Picture)
    requires
        pic.stat % 4 == pic.mode,
    ensures
        (Picture { dots: (pic.dots + 4) as u32, ..pic }).advanced().stat / 8 == pic.stat / 8,
{
    lemma_mode_kept(Picture { dots: (pic.dots + 4) as u32, ..pic });
}

proof fn lemma_sampled_stat(pic: Picture)
    ensures
        pic.stat_sampled().stat == pic.stat / 8 * 8 + (if pic.ly == pic.lyc {
            4int
        } else {
            0
        }) + pic.stat % 4,
        pic.stat_sampled().reads(0xff41) == pic.stat_sampled().stat % 128 + 128,
        pic.stat_sampled().mode == pic.mode,
        pic.stat_sampled().ly == pic.ly,
        pic.stat_sampled().lyc == pic.lyc,
{
    bits::lemma_byte(pic.stat);
    bits::lemma_byte(pic.stat_sampled().stat);
}

proof fn lemma_with_mode(pic: Picture, mode: u8)
    requires
        mode <= 3,
    ensures
        pic.with_mode(mode).stat == pic.stat / 4 * 4 + mode,
        pic.with_mode(mode).mode == mode,
{
    bits::lemma_byte(pic.stat);
}

proof fn lemma_mode_kept(pic: Picture)
    requires
        pic.stat % 4 == pic.mode,
    ensures
        pic.advanced().stat % 4 == pic.advanced().mode,
        pic.advanced().stat / 8 == pic.stat / 8,
{
    let next = Picture { dots: (pic.dots - 456) as u32, ..pic }.next_line();
    lemma_with_mode(pic, 3);
    lemma_with_mode(pic.drawn(), 0);
    lemma_with_mode(next, 1);
    lemma_with_mode(next, 2);
}

/// What can raise the status interrupt: bit 6 of the status register lets the line that LYC
/// names, bit 5 mode 2, bit 4 mode 1 and bit 3 mode 0.
#[verifier::rlimit(40)]
pub proof fn law_status_sources(pic: Picture)
    ensures
        pic.stat_sources() <==> pic.stat / 64 % 2 == 1 && pic.ly == pic.lyc || pic.stat / 32 % 2
            == 1 && pic.mode == 2 || pic.stat / 16 % 2 == 1 && pic.mode == 1 || pic.stat / 8 % 2
            == 1 && pic.mode == 0,
        pic.stat_sampled().irq == if pic.stat_sources() && !pic.stat_line {
            pic.irq | 2
        } else {
            pic.irq
        },
{
    let now = pic.stat_now();
    lemma_sampled_stat(pic);
    assert(now == pic.stat_sampled().stat);
    lemma_upper_bits(pic.stat, now);
    lemma_enable_bits(now);
}

proof fn lemma_upper_bits(s: u8, t: u8)
    requires
        t == s / 8 * 8 + s % 4 || t == s / 8 * 8 + 4 + s % 4,
    ensures
        t / 8 == s / 8,
        t / 16 == s / 16,
        t / 32 == s / 32,
        t / 64 == s / 64,
{
    assert(t / 8 == s / 8);
    assert(t / 16 == t / 8 / 2 && s / 16 == s / 8 / 2);
    assert(t / 32 == t / 8 / 4 && s / 32 == s / 8 / 4);
    assert(t / 64 == t / 8 / 8 && s / 64 == s / 8 / 8);
}

proof fn lemma_enable_bits(s: u8)
    ensures
        (s & 0x40 != 0) == (s / 64 % 2 == 1),
        (s & 0x20 != 0) == (s / 32 % 2 == 1),
        (s & 0x10 != 0) == (s / 16 % 2 == 1),
        (s & 0x08 != 0) == (s / 8 % 2 == 1),
{
    bits::lemma_byte(s);
}

/// Each register holds what the picture is made with, and a write to one moves no other.
#[verifier::rlimit(40)]
pub proof fn law_registers(pic: Picture, value: u8)
    ensures
        pic.written(0xff40, value).reads(0xff40) == value,
        pic.written(0xff42, value) == (Picture { scy: value, ..pic }),
        pic.written(0xff43, value) == (Picture { scx: value, ..pic }),
        pic.written(0xff44, value) == pic,
        pic.written(0xff45, value) == (Picture { lyc: value, ..pic }),
        pic.written(0xff47, value) == (Picture { bgp: value, ..pic }),
        pic.written(0xff48, value) == (Picture { obp0: value, ..pic }),
        pic.written(0xff49, value) == (Picture { obp1: value, ..pic }),
        pic.written(0xff4a, value) == (Picture { wy: value, ..pic }),
        pic.written(0xff4b, value) == (Picture { wx: value, ..pic }),
        pic.reads(0xff42) == pic.scy,
        pic.reads(0xff43) == pic.scx,
        pic.reads(0xff44) == pic.ly,
        pic.reads(0xff45) == pic.lyc,
        pic.reads(0xff47) == pic.bgp,
        pic.reads(0xff48) == pic.obp0,
        pic.reads(0xff49) == pic.obp1,
        pic.reads(0xff4a) == pic.wy,
        pic.reads(0xff4b) == pic.wx,
{
}

/// Switching the screen on starts it at the top of a frame, in mode 2; a write that leaves
/// the top bit of LCDC as it was moves nothing but LCDC.
#[verifier::rlimit(40)]
pub proof fn law_screen_on(pic: Picture, value: u8)
    ensures
        pic.lcdc < 128 && value >= 128 ==> {
            let on = pic.written(0xff40, value);
            &&& on.ly == 0
            &&& on.dots == 0
            &&& on.mode == 2
            &&& on.stat % 4 == 2
            &&& on.irq == pic.irq
            &&& on.framebuffer == pic.framebuffer
        },
        pic.lcdc >= 128 && value < 128 ==> {
            let off = pic.written(0xff40, value);
            &&& off.ly == 0
            &&& off.dots == 0
            &&& off.mode == 0
            &&& off.stat % 4 == 0
            &&& off.window_line == 0
        },
        (pic.lcdc >= 128) == (value >= 128) ==> pic.written(0xff40, value) == (Picture {
            lcdc: value,
            ..pic
        }),
        pic.lcd_on() <==> pic.lcdc >= 128,
{
    bits::lemma_byte(pic.lcdc);
    bits::lemma_byte(value);
    lemma_with_mode(Picture { lcdc: value, ..pic }, 2);
    lemma_with_mode(Picture { lcdc: value, ..pic }, 0);
}

/// A colour console's palette memories: the index register chooses one of 64 bytes, the
/// data register reads and writes it, and if the index has its top bit set each write moves
/// it on to the next, from the last to the first.
#[verifier::rlimit(40)]
pub proof fn law_palette_memory(pic: Picture, index: u8, value: u8)
    requires
        pic.wf(),
        pic.cgb,
    ensures
        ({
            let bg = pic.written(0xff68, index).written(0xff69, value);
            let obj = pic.written(0xff6a, index).written(0xff6b, value);
            let next = if index >= 128 {
                (index % 64 + 1) % 64
            } else {
                index as int % 64
            };
            &&& bg.bg_pal == pic.bg_pal.update(index as int % 64, value)
            &&& bg.obj_pal == pic.obj_pal
            &&& bg.reads(0xff68) == index / 128 * 128 + 64 + next
            &&& obj.obj_pal == pic.obj_pal.update(index as int % 64, value)
            &&& obj.bg_pal == pic.bg_pal
            &&& obj.reads(0xff6a) == index / 128 * 128 + 64 + next
            &&& pic.written(0xff68, index).reads(0xff69) == pic.bg_pal[index as int % 64]
            &&& pic.written(0xff6a, index).reads(0xff6b) == pic.obj_pal[index as int % 64]
        }),
{
    let kept = index & 0xbf;
    assert(kept == index / 128 * 128 + index % 64) by {
        bits::lemma_byte(index);
    }
    lemma_palette_step(kept);
}

proof fn lemma_palette_step(kept: u8)
    requires
        kept / 64 % 2 == 0,
    ensures
        kept >= 128 ==> Picture::index_after(kept) == 128 + (kept % 64 + 1) % 64,
        kept < 128 ==> Picture::index_after(kept) == kept,
        Picture::index_after(kept) | 0x40 == Picture::index_after(kept) / 128 * 128 + 64
            + Picture::index_after(kept) % 64,
{
    let up = kept.wrapping_add(1);
    assert((kept & 0x80 != 0) == (kept >= 128) && kept & 0x80 == kept / 128 * 128) by {
        bits::lemma_byte(kept);
    }
    assert(up & 0x3f == up % 64) by {
        bits::lemma_byte(up);
    }
    let low = up & 0x3f;
    assert(kept >= 128 ==> 128u8 | low == low + 128) by {
        bits::lemma_byte(low);
    }
    bits::lemma_byte(Picture::index_after(kept));
}

/// A colour console's other registers: the low bit of the bank register chooses the half of
/// video memory that 0x8000-0x9fff shows, and the low bit of the priority register how
/// sprites are ordered.
pub proof fn law_bank_and_order(pic: Picture, value: u8, addr: u16)
    requires
        pic.wf(),
        pic.cgb,
        0x8000 <= addr <= 0x9fff,
    ensures
        pic.written(0xff4f, value).reads(0xff4f) == 0xfe + value % 2,
        pic.written(0xff4f, value).vram_index(addr) == value % 2 * 0x2000 + (addr - 0x8000),
        pic.written(0xff6c, value).reads(0xff6c) == 0xfe + value % 2,
        pic.written(0xff6c, value).opri == value % 2,
{
    bits::lemma_byte(value);
    bits::lemma_byte(value & 1);
    bits::lemma_byte(value % 2);
}

/// A stretch of clocks takes a screen that is on as many dots through its frame of 154 lines
/// of 456, in fours, and leaves one that is off where it is.
pub proof fn law_sweep(pic: Picture, t: u32)
    requires
        pic.wf(),
    ensures
        pic.lcdc >= 128 ==> 456 * pic.stepped(t).ly + pic.stepped(t).dots == (456 * pic.ly + pic.dots
            + t / 4 * 4) % 70_224,
        pic.lcdc < 128 ==> pic.stepped(t) == pic,
{
    bits::lemma_byte(pic.lcdc);
    crate::hw::frame::law_position(pic, (t / 4) as nat);
}

} // verus!
