//! How the picture processor moves through a frame, and which sprite wins an overlap.
use vstd::prelude::*;
use crate::hw::picture::{Picture, IRQ_STAT};
use crate::hw::ppu;

verus! {

/// Dots in one frame.
pub const DOTS_PER_FRAME: u32 = 70_224;

impl Picture {
    /// How many dots of the current frame have passed.
    pub open spec fn position(self) -> int {
        self.ly * 456 + self.dots
    }
}

/// Four dots move four dots further through the frame and keep the screen on; the
/// vertical blank is announced as the frame reaches it.
pub proof fn law_tick_advances(pic: Picture)
    requires
        pic.wf(),
    ensures
        pic.ticked().wf(),
        pic.ticked().lcdc == pic.lcdc,
        pic.ticked().position() == (pic.position() + 4) % 70_224,
        pic.frame_ready ==> pic.ticked().frame_ready,
        pic.position() < 144 * 456 <= pic.position() + 4 ==> pic.ticked().frame_ready,
{
    ppu::law_ten_per_line(pic);
    let next = Picture { dots: (pic.dots + 4) as u32, ..pic };
    ppu::law_ten_per_line(next);
    assert(next.draw_length() <= 289);
}

/// Any stretch of ticks moves that many dots through the frame.
pub proof fn law_position(pic: Picture, n: nat)
    requires
        pic.wf(),
    ensures
        pic.ticks(n).wf(),
        pic.ticks(n).lcdc == pic.lcdc,
        pic.ticks(n).position() == (pic.position() + 4 * n) % 70_224,
        pic.frame_ready ==> pic.ticks(n).frame_ready,
    decreases n,
{
    if n > 0 {
        law_position(pic, (n - 1) as nat);
        law_tick_advances(pic.ticks((n - 1) as nat));
    }
}

proof fn lemma_reaches_vblank(pic: Picture, n: nat)
    requires
        pic.wf(),
        pic.position() < 144 * 456,
        pic.position() + 4 * n >= 144 * 456,
    ensures
        pic.ticks(n).frame_ready,
    decreases n,
{
    let before = (n - 1) as nat;
    law_position(pic, before);
    law_tick_advances(pic.ticks(before));
    if pic.position() + 4 * before >= 144 * 456 {
        lemma_reaches_vblank(pic, before);
    }
}

proof fn lemma_ticks_add(pic: Picture, m: nat, n: nat)
    ensures
        pic.ticks(m).ticks(n) == pic.ticks(m + n),
    decreases n,
{
    if n > 0 {
        lemma_ticks_add(pic, m, (n - 1) as nat);
    }
}

/// A screen that is on finishes a frame within one frame's worth of dots, wherever it
/// started.
pub proof fn law_frame_is_finished(pic: Picture)
    requires
        pic.wf(),
        pic.lcd_on(),
    ensures
        pic.stepped(DOTS_PER_FRAME).frame_ready,
{
    let all = 17_556nat;
    if pic.position() < 144 * 456 {
        lemma_reaches_vblank(pic, all);
    } else {
        // Run to the top of the frame first, and from there on.
        let rest = ((70_224 - pic.position() + 3) / 4) as nat;
        law_position(pic, rest);
        assert(pic.position() + 4 * rest < 70_224 + 4);
        let top = pic.ticks(rest);
        assert(top.position() < 4);
        lemma_ticks_add(pic, rest, (all - rest) as nat);
        lemma_reaches_vblank(top, (all - rest) as nat);
    }
}

/// The mode is one of four, the line one of 154, and the vertical blank is exactly the
/// lines below the screen.
pub proof fn law_modes(pic: Picture)
    requires
        pic.wf(),
    ensures
        pic.mode <= 3,
        pic.ly <= 153,
        pic.mode == 1 <==> pic.ly >= 144,
{
}

/// Registers read back what was written to them; of the status register the program sets
/// the four enable bits only, and the current line not at all.
pub proof fn law_registers_read_back(pic: Picture, addr: u16, value: u8)
    ensures
        addr == 0xff42 || addr == 0xff43 || addr == 0xff45 || addr == 0xff47 || addr == 0xff48
            || addr == 0xff49 || addr == 0xff4a || addr == 0xff4b ==> pic.written(
            addr,
            value,
        ).reads(addr) == value,
        pic.written(0xff41, value).reads(0xff41) == 0x80 | (value & 0x78) | (pic.reads(0xff41)
            & 7),
        pic.written(0xff44, value).reads(0xff44) == pic.reads(0xff44),
{
    let old = pic.stat;
    assert(((value & 0x78) | (old & 0x07)) | 0x80 == 0x80u8 | (value & 0x78) | ((old | 0x80) & 7))
        by (bit_vector);
}

/// A monochrome console has no colour registers: they read as 0xff whatever was written.
pub proof fn law_no_colour_registers(pic: Picture, addr: u16, to: u16, value: u8)
    requires
        !pic.cgb,
        addr == 0xff4f || 0xff68 <= addr <= 0xff6c,
    ensures
        pic.reads(addr) == 0xff,
        !pic.written(to, value).cgb,
{
}

/// Video memory reads back what was written, in the bank that shows, and nothing else of
/// the picture processor changes.
pub proof fn law_video_ram_reads_back(pic: Picture, addr: u16, value: u8)
    requires
        pic.wf(),
        0x8000 <= addr <= 0x9fff,
    ensures
        ({
            let next = pic.vram_written(addr, value);
            let at = pic.vram_bank * 0x2000 + (addr - 0x8000);
            &&& next.vram[next.vram_index(addr)] == value
            &&& next.vram[at] == value
            &&& forall|p: int|
                0 <= p < 0x4000 && p != at ==> #[trigger] next.vram[p] == pic.vram[p]
            &&& next == (Picture { vram: next.vram, ..pic })
        }),
{
}

/// Switching the screen off parks it at the top of the frame, where it stays, blank. No
/// interrupt is requested, and neither memory changes.
pub proof fn law_screen_off(pic: Picture, value: u8, t: u32)
    requires
        pic.wf(),
        pic.lcd_on(),
        value & 0x80 == 0,
    ensures
        ({
            let off = pic.written(0xff40, value);
            &&& off.wf()
            &&& off.stepped(t) == off
            &&& off.position() == 0
            &&& off.ly == 0
            &&& off.mode == 0
            &&& off.irq == pic.irq
            &&& off.vram == pic.vram
            &&& off.oam == pic.oam
            &&& off.frame_ready
            &&& forall|p: int|
                0 <= p < 160 * 144 ==> #[trigger] off.framebuffer[p] == pic.dmg_palette[0]
        }),
{
}

/// The status interrupt is requested exactly as one of its enabled sources comes up while
/// none was, and not again while any of them stays up.
pub proof fn law_status_interrupt_on_rise(pic: Picture)
    requires
        pic.irq & IRQ_STAT == 0,
    ensures
        pic.ticked().irq & IRQ_STAT != 0 <==> pic.ticked().stat_line && !pic.stat_line,
        pic.ticked().stat_line == pic.ticked().stat_sources(),
{
    let irq = pic.irq;
    assert((irq | 0x02u8) & 0x02u8 != 0 && (irq | 0x01u8) & 0x02u8 == irq & 0x02u8 && ((irq
        | 0x01u8) | 0x02u8) & 0x02u8 != 0) by (bit_vector);
    let s = pic.ticked().stat;
    let (up, down) = (s | 0x04u8, s & !0x04u8);
    assert(up & 0x40 == s & 0x40 && up & 0x20 == s & 0x20 && up & 0x10 == s & 0x10 && up & 0x08 == s
        & 0x08 && down & 0x40 == s & 0x40 && down & 0x20 == s & 0x20 && down & 0x10 == s & 0x10
        && down & 0x08 == s & 0x08) by (bit_vector)
        requires
            up == s | 0x04u8,
            down == s & !0x04u8,
    ;
}

// ---- sprites -------------------------------------------------------------

/// Whether sprite `a` wins over sprite `b` where both paint: the one further left does,
/// and of two in the same column the one that comes first in OAM.
pub open spec fn wins_by_column(pic: Picture, a: int, b: int) -> bool {
    pic.oam[a * 4 + 1] < pic.oam[b * 4 + 1] || pic.oam[a * 4 + 1] == pic.oam[b * 4 + 1] && a < b
}

proof fn lemma_found_increasing(pic: Picture, n: nat)
    ensures
        forall|j: int, k: int|
            0 <= j < k < pic.found(n).len() ==> #[trigger] pic.found(n)[j]
                < #[trigger] pic.found(n)[k] < n,
        forall|j: int| 0 <= j < pic.found(n).len() ==> #[trigger] pic.found(n)[j] < n,
    decreases n,
{
    if n > 0 {
        let fewer = pic.found((n - 1) as nat);
        lemma_found_increasing(pic, (n - 1) as nat);
        assert forall|j: int| 0 <= j < fewer.len() implies #[trigger] pic.found(n)[j] == fewer[j]
            && fewer[j] < n - 1 by {}
    }
}

proof fn lemma_placed_sorted(pic: Picture, s: Seq<int>, i: int)
    requires
        forall|j: int, k: int|
            0 <= j < k < s.len() ==> wins_by_column(pic, #[trigger] s[j], #[trigger] s[k]),
        forall|j: int| 0 <= j < s.len() ==> #[trigger] s[j] < i,
    ensures
        pic.placed(s, i).len() == s.len() + 1,
        forall|x: int| #[trigger] pic.placed(s, i).contains(x) <==> s.contains(x) || x == i,
        forall|j: int, k: int|
            0 <= j < k <= s.len() ==> wins_by_column(
                pic,
                #[trigger] pic.placed(s, i)[j],
                #[trigger] pic.placed(s, i)[k],
            ),
    decreases s.len(),
{
    if s.len() == 0 || pic.oam[s.last() * 4 + 1] <= pic.oam[i * 4 + 1] {
        let out = s.push(i);
        assert forall|x: int| out.contains(x) <==> s.contains(x) || x == i by {
            if s.contains(x) {
                let k = s.index_of(x);
                assert(out[k] == x);
            }
            if x == i {
                assert(out[s.len() as int] == x);
            }
        }
        assert forall|j: int, k: int| 0 <= j < k <= s.len() implies wins_by_column(
            pic,
            #[trigger] out[j],
            #[trigger] out[k],
        ) by {
            if k == s.len() {
                assert(s[j] < i);
                if j < s.len() - 1 {
                    assert(wins_by_column(pic, s[j], s[s.len() - 1]));
                }
            }
        }
    } else {
        let rest = s.drop_last();
        lemma_placed_sorted(pic, rest, i);
        let inner = pic.placed(rest, i);
        let out = inner.push(s.last());
        assert forall|x: int| out.contains(x) <==> s.contains(x) || x == i by {
            if s.contains(x) {
                let k = s.index_of(x);
                if k < rest.len() {
                    assert(rest[k] == x);
                    assert(rest.contains(x));
                    assert(inner.contains(x));
                    assert(out[inner.index_of(x)] == x);
                } else {
                    assert(out[inner.len() as int] == x);
                }
            }
            if x == i {
                assert(inner.contains(x));
                assert(out[inner.index_of(x)] == x);
            }
            if out.contains(x) {
                let k = out.index_of(x);
                if k < inner.len() {
                    assert(inner[k] == x);
                    assert(inner.contains(x));
                    if rest.contains(x) {
                        assert(s[rest.index_of(x)] == x);
                    }
                } else {
                    assert(s[s.len() - 1] == x);
                }
            }
        }
        assert forall|j: int, k: int| 0 <= j < k <= s.len() implies wins_by_column(
            pic,
            #[trigger] out[j],
            #[trigger] out[k],
        ) by {
            if k == s.len() {
                let x = inner[j];
                assert(inner.contains(x));
                if rest.contains(x) {
                    let m = rest.index_of(x);
                    assert(rest[m] == s[m]);
                    assert(wins_by_column(pic, s[m], s[s.len() - 1]));
                }
            }
        }
    }
}

proof fn lemma_by_column_sorted(pic: Picture, s: Seq<int>)
    requires
        forall|j: int, k: int| 0 <= j < k < s.len() ==> #[trigger] s[j] < #[trigger] s[k],
    ensures
        pic.by_column(s).len() == s.len(),
        forall|x: int| #[trigger] pic.by_column(s).contains(x) <==> s.contains(x),
        forall|j: int, k: int|
            0 <= j < k < s.len() ==> wins_by_column(
                pic,
                #[trigger] pic.by_column(s)[j],
                #[trigger] pic.by_column(s)[k],
            ),
    decreases s.len(),
{
    if s.len() > 0 {
        let rest = s.drop_last();
        let sorted = pic.by_column(rest);
        lemma_by_column_sorted(pic, rest);
        assert forall|j: int| 0 <= j < sorted.len() implies #[trigger] sorted[j] < s.last() by {
            assert(sorted.contains(sorted[j]));
            assert(rest.contains(sorted[j]));
            let k = rest.index_of(sorted[j]);
            assert(rest[k] == s[k]);
            assert(s[k] < s[s.len() - 1]);
        }
        lemma_placed_sorted(pic, sorted, s.last());
        assert forall|x: int| pic.by_column(s).contains(x) <==> s.contains(x) by {
            if s.contains(x) {
                let k = s.index_of(x);
                if k < rest.len() {
                    assert(rest[k] == x);
                    assert(rest.contains(x));
                }
            }
            if rest.contains(x) {
                assert(s[rest.index_of(x)] == x);
            }
            assert(s[s.len() - 1] == s.last());
        }
    }
}

/// Sprites are painted so that the winner of every overlap comes last: on a DMG, and on
/// a CGB that asks for it, the one further left and then the one first in OAM; on a CGB
/// otherwise the one first in OAM. What is painted are the first sprites found on the
/// line.
pub proof fn law_sprite_priority(pic: Picture)
    requires
        pic.lcdc & 0x02 != 0,
    ensures
        pic.visible().len() == pic.found(40).len(),
        forall|x: int| #[trigger] pic.visible().contains(x) <==> pic.found(40).contains(x),
        forall|j: int, k: int|
            0 <= j < k < pic.visible().len() ==> if !pic.cgb || pic.opri & 1 != 0 {
                wins_by_column(pic, #[trigger] pic.visible()[k], #[trigger] pic.visible()[j])
            } else {
                pic.visible()[k] < pic.visible()[j]
            },
{
    let s = pic.found(40);
    lemma_found_increasing(pic, 40);
    lemma_by_column_sorted(pic, s);
    let order = if !pic.cgb || pic.opri & 1 != 0 {
        pic.by_column(s)
    } else {
        s
    };
    let out = order.reverse();
    let n = order.len();
    assert forall|x: int| out.contains(x) <==> order.contains(x) by {
        if order.contains(x) {
            assert(out[n - 1 - order.index_of(x)] == x);
        }
        if out.contains(x) {
            assert(order[n - 1 - out.index_of(x)] == x);
        }
    }
}

} // verus!
