//! What colour a pixel has, told from the bytes in video memory and the registers.
use vstd::prelude::*;
use crate::hw::bits;
use crate::hw::picture;
use crate::hw::picture::Picture;

verus! {

/// Bit `n` of a byte, 0 or 1; bit 7 is the highest.
#[verifier::opaque]
pub open spec fn nth_bit(b: u8, n: int) -> int {
    if n == 0 {
        b as int % 2
    } else if n == 1 {
        b as int / 2 % 2
    } else if n == 2 {
        b as int / 4 % 2
    } else if n == 3 {
        b as int / 8 % 2
    } else if n == 4 {
        b as int / 16 % 2
    } else if n == 5 {
        b as int / 32 % 2
    } else if n == 6 {
        b as int / 64 % 2
    } else {
        b as int / 128
    }
}

/// The bits of a byte, from the lowest, make it up.
pub proof fn law_nth_bit(b: u8)
    ensures
        b == nth_bit(b, 0) + 2 * nth_bit(b, 1) + 4 * nth_bit(b, 2) + 8 * nth_bit(b, 3) + 16
            * nth_bit(b, 4) + 32 * nth_bit(b, 5) + 64 * nth_bit(b, 6) + 128 * nth_bit(b, 7),
{
    reveal(nth_bit);
    assert(b as int / 64 == 2 * (b as int / 128) + b as int / 64 % 2);
    assert(b as int / 32 == 2 * (b as int / 64) + b as int / 32 % 2);
    assert(b as int / 16 == 2 * (b as int / 32) + b as int / 16 % 2);
    assert(b as int / 8 == 2 * (b as int / 16) + b as int / 8 % 2);
    assert(b as int / 4 == 2 * (b as int / 8) + b as int / 4 % 2);
    assert(b as int / 2 == 2 * (b as int / 4) + b as int / 2 % 2);
}

proof fn lemma_bit_of(b: u8, n: int)
    requires
        0 <= n < 8,
    ensures
        picture::bit_of(b, n) == nth_bit(b, n),
        nth_bit(b, n) == 0 || nth_bit(b, n) == 1,
{
    reveal(nth_bit);
    bits::lemma_byte(b);
}

/// The two bytes of a tile's row give each column two bits: the first byte the low ones,
/// the second the high ones.
proof fn lemma_plane(lo: u8, hi: u8, n: int)
    requires
        0 <= n < 8,
    ensures
        picture::plane_colour(lo, hi, n) % 2 == nth_bit(lo, n),
        picture::plane_colour(lo, hi, n) / 2 == nth_bit(hi, n),
        0 <= picture::plane_colour(lo, hi, n) < 4,
{
    lemma_bit_of(lo, n);
    lemma_bit_of(hi, n);
}

/// Where the background is read from at screen column `x` outside the window: the map that
/// bit 3 of LCDC names, and the point of its 256 by 256 pixels that the scroll registers
/// move there.
pub proof fn law_background_point(pic: Picture, x: int)
    requires
        0 <= x < 160,
        pic.lcdc / 32 % 2 == 0 || pic.wy > pic.ly || x < pic.wx - 7 || pic.wx > 166,
    ensures
        pic.map_point(x).0 == 0x1800 + pic.lcdc / 8 % 2 * 0x400,
        pic.map_point(x).1 == (x + pic.scx) % 256,
        pic.map_point(x).2 == (pic.ly + pic.scy) % 256,
{
    bits::lemma_byte(pic.lcdc);
}

/// Where it is read from inside the window, which begins seven columns left of WX and at
/// line WY: the map that bit 6 names, from its own top left corner.
pub proof fn law_window_point(pic: Picture, x: int)
    requires
        0 <= x < 160,
        pic.lcdc / 32 % 2 == 1,
        pic.wy <= pic.ly,
        x >= pic.wx - 7,
        pic.wx <= 166,
    ensures
        pic.map_point(x).0 == 0x1800 + pic.lcdc / 64 % 2 * 0x400,
        pic.map_point(x).1 == x - (pic.wx - 7),
        pic.map_point(x).2 == pic.window_line,
{
    bits::lemma_byte(pic.lcdc);
}

/// Where the tile numbered `tile` is kept: from 0x8000 up while bit 4 of LCDC is set, and
/// counted from 0x9000 either way, as a signed number, while it is clear.
pub proof fn law_tile_data(pic: Picture, tile: u8)
    ensures
        pic.lcdc / 16 % 2 == 1 ==> 0x8000 + pic.tile_base(tile) == 0x8000 + 16 * tile,
        pic.lcdc / 16 % 2 == 0 && tile < 128 ==> 0x8000 + pic.tile_base(tile) == 0x9000 + 16 * tile,
        pic.lcdc / 16 % 2 == 0 && tile >= 128 ==> 0x8000 + pic.tile_base(tile) == 0x9000 + 16 * (
        tile - 256),
{
    bits::lemma_byte(pic.lcdc);
}

/// A monochrome background, unscrolled: column x of the screen shows, of the row of the
/// tile under it with the bytes lo and hi, bit 7 - x % 8 of lo and, worth two, that of hi.
#[verifier::rlimit(40)]
pub proof fn law_background_colour(pic: Picture, x: int)
    requires
        pic.wf(),
        0 <= x < 160,
        pic.ly < 144,
        !pic.cgb,
        pic.scx == 0,
        pic.scy == 0,
        pic.lcdc / 32 % 2 == 0,
        pic.lcdc / 16 % 2 == 1,
    ensures
        ({
            let map = 0x1800 + pic.lcdc / 8 % 2 * 0x400;
            let tile = pic.vram[map + pic.ly / 8 * 32 + x / 8];
            let row = 16 * tile + 2 * (pic.ly % 8);
            let lo = pic.vram[row];
            let hi = pic.vram[row + 1];
            &&& pic.bg_colour(x) % 2 == nth_bit(lo, 7 - x % 8)
            &&& pic.bg_colour(x) / 2 == nth_bit(hi, 7 - x % 8)
            &&& 0 <= pic.bg_colour(x) < 4
        }),
{
    law_background_point(pic, x);
    let tile = pic.vram[pic.map_index(x)];
    law_tile_data(pic, tile);
    let row = 16 * tile + 2 * (pic.ly % 8);
    lemma_plane(pic.vram[row], pic.vram[row + 1], 7 - x % 8);
    assert(pic.bg_attr(x) == 0);
    bits::lemma_byte(0);
}

/// The background's colour at any column, from the point of the map that shows there: the
/// tile there, with its attributes on a colour console. Attribute bit 5 reverses its
/// columns, bit 6 its rows, and bit 3 takes it from the other bank.
#[verifier::rlimit(40)]
pub proof fn law_tile_colour(pic: Picture, x: int)
    requires
        pic.wf(),
        0 <= x < 160,
    ensures
        ({
            let (map, across, down) = pic.map_point(x);
            let at = map + down / 8 * 32 + across / 8;
            let attr: u8 = if pic.cgb {
                pic.vram[0x2000 + at]
            } else {
                0
            };
            let tile = pic.vram[at];
            let line = if attr / 64 % 2 == 1 {
                7 - down % 8
            } else {
                down % 8
            };
            let row = attr / 8 % 2 * 0x2000 + pic.tile_base(tile) + 2 * line;
            let bit = if attr / 32 % 2 == 1 {
                across % 8
            } else {
                7 - across % 8
            };
            &&& pic.bg_colour(x) % 2 == nth_bit(pic.vram[row], bit)
            &&& pic.bg_colour(x) / 2 == nth_bit(pic.vram[row + 1], bit)
            &&& 0 <= pic.bg_colour(x) < 4
            &&& pic.bg_attr(x) == attr
        }),
{
    let (map, across, down) = pic.map_point(x);
    let attr = pic.bg_attr(x);
    assert((attr & 0x40 != 0) == (attr / 64 % 2 == 1) && (attr & 0x20 != 0) == (attr / 32 % 2 == 1)
        && (attr & 0x08 != 0) == (attr / 8 % 2 == 1)) by {
        bits::lemma_byte(attr);
    }
    let line = if attr / 64 % 2 == 1 {
        7 - down % 8
    } else {
        down % 8
    };
    let row = attr / 8 % 2 * 0x2000 + pic.tile_base(pic.vram[pic.map_index(x)]) + 2 * line;
    let bit = if attr / 32 % 2 == 1 {
        across % 8
    } else {
        7 - across % 8
    };
    lemma_plane(pic.vram[row], pic.vram[row + 1], bit);
}

/// Two pictures that are alike but for the horizontal flip of one tile show that tile the
/// other way round: column by column, one is the mirror image of the other.
#[verifier::rlimit(40)]
pub proof fn law_flip_mirrors(plain: Picture, flipped: Picture, x: int, y: int)
    requires
        plain.wf(),
        plain.cgb,
        0 <= x < 160,
        0 <= y < 160,
        ({
            let at = 0x2000 + plain.map_index(x);
            &&& flipped == (Picture {
                vram: plain.vram.update(at, (plain.vram[at] + 0x20) as u8),
                ..plain
            })
            &&& plain.vram[at] / 32 % 2 == 0
            // The tile's own bytes are not among the attributes.
            &&& plain.vram[at] / 8 % 2 == 0
        }),
        plain.map_index(x) == plain.map_index(y),
        plain.map_point(x).2 == plain.map_point(y).2,
        plain.map_point(x).1 % 8 + plain.map_point(y).1 % 8 == 7,
    ensures
        flipped.bg_colour(x) == plain.bg_colour(y),
{
    let at = 0x2000 + plain.map_index(x);
    let a = plain.vram[at];
    let b = (a + 0x20) as u8;
    assert(b / 64 % 2 == a / 64 % 2 && b / 32 % 2 == 1 && b / 8 % 2 == 0);
    assert(flipped.map_point(x) == plain.map_point(x));
    assert(flipped.wf());
    law_tile_colour(flipped, x);
    law_tile_colour(plain, y);
    let tile = plain.vram[plain.map_index(x)];
    assert(flipped.vram[plain.map_index(x)] == tile);
    assert(flipped.tile_base(tile) == plain.tile_base(tile));
}

/// A monochrome palette register gives each of the four colours two of its bits, the
/// lowest to colour 0, and they name one of the four shades.
pub proof fn law_shade(pic: Picture, register: u8)
    ensures
        pic.shade(register, 0) == pic.dmg_palette[register as int % 4],
        pic.shade(register, 1) == pic.dmg_palette[register as int / 4 % 4],
        pic.shade(register, 2) == pic.dmg_palette[register as int / 16 % 4],
        pic.shade(register, 3) == pic.dmg_palette[register as int / 64 % 4],
{
    bits::lemma_byte(register);
}

/// The background's pixel: through BGP on a monochrome console, which shows the lightest
/// shade all over while bit 0 of LCDC is clear; through the palette that the attribute's
/// low three bits name on a colour console.
pub proof fn law_background_pixel(pic: Picture, x: int)
    ensures
        !pic.cgb && pic.lcdc % 2 == 0 ==> pic.bg_pixel(x) == pic.dmg_palette[0] && pic.bg_entry(x)
            == 0,
        !pic.cgb && pic.lcdc % 2 == 1 ==> pic.bg_pixel(x) == pic.shade(pic.bgp, pic.bg_colour(x)),
        pic.cgb ==> pic.bg_pixel(x) == picture::cgb_rgb(
            pic.bg_pal,
            pic.bg_attr(x) as int % 8,
            pic.bg_colour(x),
        ),
{
    bits::lemma_byte(pic.lcdc);
}

/// A colour of a colour console: colour `index` of palette `palette` is the two bytes at
/// eight times the one and twice the other, the low one first, and they hold red, green
/// and blue in five bits each from the lowest. On the screen each of the three is mixed
/// with a little of the others and spread over a byte.
#[verifier::rlimit(40)]
pub proof fn law_colour(pal: Seq<u8>, palette: int, index: int, r: int, g: int, b: int, top: int)
    requires
        pal.len() == 64,
        0 <= palette < 8,
        0 <= index < 4,
        0 <= r < 32,
        0 <= g < 32,
        0 <= b < 32,
        0 <= top < 2,
        pal[8 * palette + 2 * index] + 256 * pal[8 * palette + 2 * index + 1] == r + 32 * g + 1024
            * b + 32768 * top,
    ensures
        ({
            let rgb = picture::cgb_rgb(pal, palette, index);
            &&& rgb / 0x1_0000 == (26 * r + 4 * g + 2 * b) / 32 * 255 / 31
            &&& rgb / 0x100 % 0x100 == (24 * g + 8 * b) / 32 * 255 / 31
            &&& rgb % 0x100 == (6 * r + 4 * g + 22 * b) / 32 * 255 / 31
            &&& rgb < 0x100_0000
            &&& r == 0 && g == 0 && b == 0 ==> rgb == 0
            &&& r == 31 && g == 31 && b == 31 ==> rgb == 0xff_ffff
        }),
{
    let off = palette * 8 + index * 2;
    let raw = pal[off] + 256 * pal[off + 1];
    lemma_unpack(raw, r, g, b, top);
    let red = (r * 26 + g * 4 + b * 2) / 32;
    let green = (g * 24 + b * 8) / 32;
    let blue = (r * 6 + g * 4 + b * 22) / 32;
    lemma_spread(red);
    lemma_spread(green);
    lemma_spread(blue);
    lemma_packed(red * 255 / 31, green * 255 / 31, blue * 255 / 31);
}

proof fn lemma_unpack(raw: int, r: int, g: int, b: int, top: int)
    requires
        0 <= r < 32,
        0 <= g < 32,
        0 <= b < 32,
        0 <= top < 2,
        raw == r + 32 * g + 1024 * b + 32768 * top,
    ensures
        raw % 32 == r,
        raw / 32 % 32 == g,
        raw / 1024 % 32 == b,
{
}

proof fn lemma_spread(level: int)
    requires
        0 <= level <= 31,
    ensures
        0 <= level * 255 / 31 <= 255,
        level == 0 ==> level * 255 / 31 == 0,
        level == 31 ==> level * 255 / 31 == 255,
{
}

proof fn lemma_packed(red: int, green: int, blue: int)
    requires
        0 <= red <= 255,
        0 <= green <= 255,
        0 <= blue <= 255,
    ensures
        ({
            let rgb = (red * 0x1_0000 + green * 0x100 + blue) as u32;
            &&& rgb / 0x1_0000 == red
            &&& rgb / 0x100 % 0x100 == green
            &&& rgb % 0x100 == blue
            &&& rgb < 0x100_0000
        }),
{
}

/// Which lines a sprite is on: from 16 above its first byte, for 8 lines, or 16 while bit 2
/// of LCDC is set.
pub proof fn law_sprite_lines(pic: Picture, i: int)
    ensures
        pic.on_line(i) <==> pic.oam[4 * i] - 16 <= pic.ly && pic.ly < pic.oam[4 * i] - 16 + 8 * (1
            + pic.lcdc / 4 % 2),
{
    bits::lemma_byte(pic.lcdc);
    assert(4 * i == i * 4);
}

/// How many of the first `n` sprites are on the line.
pub open spec fn crowd(pic: Picture, n: nat) -> int
    decreases n,
{
    if n == 0 {
        0
    } else if pic.oam[4 * (n - 1)] - 16 <= pic.ly && pic.ly < pic.oam[4 * (n - 1)] - 16 + 8 * (1
        + pic.lcdc / 4 % 2) {
        crowd(pic, (n - 1) as nat) + 1
    } else {
        crowd(pic, (n - 1) as nat)
    }
}

proof fn lemma_crowd(pic: Picture, n: nat, i: int)
    requires
        0 <= i,
    ensures
        pic.found(n).len() == if crowd(pic, n) < 10 {
            crowd(pic, n)
        } else {
            10
        },
        crowd(pic, n) >= 0,
        pic.found(n).contains(i) <==> i < n && pic.on_line(i) && crowd(pic, i as nat) < 10,
    decreases n,
{
    if n > 0 {
        let fewer = pic.found((n - 1) as nat);
        lemma_crowd(pic, (n - 1) as nat, i);
        law_sprite_lines(pic, n - 1);
        if fewer.len() < 10 && pic.on_line(n - 1) {
            assert(pic.found(n)[fewer.len() as int] == n - 1);
            if fewer.contains(i) {
                let k = fewer.index_of(i);
                assert(pic.found(n)[k] == i);
            }
            if pic.found(n).contains(i) && i != n - 1 {
                let k = pic.found(n).index_of(i);
                assert(fewer[k] == i);
            }
        }
    }
}

/// The sprites that a line shows: those on it, in the order of OAM, up to ten; none while
/// bit 1 of LCDC is clear.
pub proof fn law_visible(pic: Picture, i: int)
    requires
        0 <= i < 40,
    ensures
        pic.lcdc / 2 % 2 == 0 ==> pic.visible().len() == 0,
        pic.lcdc / 2 % 2 == 1 ==> (pic.visible().contains(i) <==> pic.on_line(i) && crowd(
            pic,
            i as nat,
        ) < 10),
        pic.lcdc / 2 % 2 == 1 ==> pic.visible().len() == if crowd(pic, 40) < 10 {
            crowd(pic, 40)
        } else {
            10
        },
{
    bits::lemma_byte(pic.lcdc);
    lemma_crowd(pic, 40, i);
    if pic.lcdc / 2 % 2 == 1 {
        crate::hw::frame::law_sprite_priority(pic);
    }
}

/// The colour a sprite has at screen column `x`: it covers eight columns from eight left of
/// its second byte. Its tile is its third byte, the even one of the pair while sprites are
/// 16 lines high; of its fourth byte bit 5 reverses its columns and bit 6 its lines, and on
/// a colour console bit 3 takes the tile from the other bank.
#[verifier::rlimit(40)]
pub proof fn law_sprite_colour(pic: Picture, i: int, x: int)
    requires
        pic.wf(),
        0 <= i < 40,
        pic.on_line(i),
    ensures
        ({
            let (oy, ox, tile, attr) = (
                pic.oam[4 * i],
                pic.oam[4 * i + 1],
                pic.oam[4 * i + 2],
                pic.oam[4 * i + 3],
            );
            let tall = pic.lcdc / 4 % 2;
            let line = if attr / 64 % 2 == 1 {
                (7 + 8 * tall) - (pic.ly + 16 - oy)
            } else {
                pic.ly + 16 - oy
            };
            let column = x + 8 - ox;
            let bit = if attr / 32 % 2 == 1 {
                column
            } else {
                7 - column
            };
            let first: int = if tall == 1 {
                tile / 2 * 2
            } else {
                tile as int
            };
            let bank: int = if pic.cgb {
                attr / 8 % 2 * 0x2000
            } else {
                0
            };
            let row = bank + 16 * first + 2 * line;
            &&& !(0 <= column < 8) ==> pic.sprite_colour(i, x) == 0
            &&& 0 <= column < 8 ==> {
                &&& pic.sprite_colour(i, x) % 2 == nth_bit(pic.vram[row], bit)
                &&& pic.sprite_colour(i, x) / 2 == nth_bit(pic.vram[row + 1], bit)
                &&& 0 <= pic.sprite_colour(i, x) < 4
            }
        }),
{
    assert(4 * i == i * 4);
    let attr = pic.oam[i * 4 + 3];
    let tile = pic.oam[i * 4 + 2];
    assert((attr & 0x40 != 0) == (attr / 64 % 2 == 1) && (attr & 0x20 != 0) == (attr / 32 % 2 == 1)
        && (attr & 0x08 != 0) == (attr / 8 % 2 == 1)) by {
        bits::lemma_byte(attr);
    }
    assert((pic.lcdc & 0x04 != 0) == (pic.lcdc / 4 % 2 == 1)) by {
        bits::lemma_byte(pic.lcdc);
    }
    let column = x + 8 - pic.oam[i * 4 + 1];
    let bit = if attr / 32 % 2 == 1 {
        column
    } else {
        7 - column
    };
    let line = if attr / 64 % 2 == 1 {
        pic.sprite_height() - 1 - (pic.ly - (pic.oam[i * 4] - 16))
    } else {
        pic.ly - (pic.oam[i * 4] - 16)
    };
    let first = if pic.sprite_height() == 16 {
        tile - tile % 2
    } else {
        tile as int
    };
    let row = (if pic.cgb && attr & 0x08 != 0 {
        0x2000int
    } else {
        0
    }) + first * 16 + line * 2;
    if 0 <= column < 8 {
        lemma_plane(pic.vram[row], pic.vram[row + 1], bit);
    }
}

/// When a sprite's pixel is seen: colour 0 never is. The background's colours 1 to 3 cover
/// it if bit 7 of its attributes is set, or of the background tile's on a colour console;
/// nothing does on a colour console while bit 0 of LCDC is clear.
#[verifier::rlimit(40)]
pub proof fn law_sprite_seen(pic: Picture, i: int, x: int)
    requires
        pic.wf(),
        0 <= i < 40,
        0 <= x < 160,
    ensures
        ({
            let entry = pic.bg_entry(x);
            let behind = pic.oam[4 * i + 3] >= 128 || pic.bg_attr(x) >= 128;
            let solid = !(!pic.cgb && pic.lcdc % 2 == 0) && pic.bg_colour(x) != 0;
            pic.paints(i, x, entry) <==> pic.sprite_colour(i, x) != 0 && !(behind && solid && (
            !pic.cgb || pic.lcdc % 2 == 1))
        }),
{
    assert(4 * i == i * 4);
    let attr = pic.oam[i * 4 + 3];
    assert((attr & 0x80 != 0) == (attr >= 128)) by {
        bits::lemma_byte(attr);
    }
    assert((pic.lcdc & 0x01 != 0) == (pic.lcdc % 2 == 1)) by {
        bits::lemma_byte(pic.lcdc);
    }
    law_tile_colour(pic, x);
    let colour = pic.bg_colour(x);
    lemma_entry(colour as u8, pic.bg_attr(x));
    bits::lemma_byte(0);
}

proof fn lemma_entry(colour: u8, attr: u8)
    by (bit_vector)
    requires
        colour < 4,
    ensures
        (colour | (attr & 0x80)) & 3 == colour,
        ((colour | (attr & 0x80)) & 0x80 != 0) == (attr >= 128),
{
}

/// The colour that a sprite's pixel is shown in: through OBP1 if bit 4 of its attributes is
/// set and OBP0 if not, and on a colour console through the palette that the low three
/// bits name.
pub proof fn law_sprite_palette(pic: Picture, i: int, colour: int)
    requires
        0 <= i < 40,
    ensures
        !pic.cgb && pic.oam[4 * i + 3] / 16 % 2 == 0 ==> pic.sprite_rgb(i, colour) == pic.shade(
            pic.obp0,
            colour,
        ),
        !pic.cgb && pic.oam[4 * i + 3] / 16 % 2 == 1 ==> pic.sprite_rgb(i, colour) == pic.shade(
            pic.obp1,
            colour,
        ),
        pic.cgb ==> pic.sprite_rgb(i, colour) == picture::cgb_rgb(
            pic.obj_pal,
            pic.oam[4 * i + 3] as int % 8,
            colour,
        ),
{
    assert(4 * i == i * 4);
    bits::lemma_byte(pic.oam[i * 4 + 3]);
}

proof fn lemma_over(pic: Picture, sprites: Seq<int>, x: int, entry: u8, under: u32, k: int)
    requires
        -1 <= k < sprites.len(),
        forall|j: int| k < j < sprites.len() ==> !pic.paints(#[trigger] sprites[j], x, entry),
        k >= 0 ==> pic.paints(sprites[k], x, entry),
    ensures
        k < 0 ==> pic.over(sprites, x, entry, under) == under,
        k >= 0 ==> pic.over(sprites, x, entry, under) == pic.sprite_rgb(
            sprites[k],
            pic.sprite_colour(sprites[k], x),
        ),
    decreases sprites.len(),
{
    if sprites.len() > 0 && k < sprites.len() - 1 {
        assert(!pic.paints(sprites[sprites.len() - 1], x, entry));
        lemma_over(pic, sprites.drop_last(), x, entry, under, k);
    }
}

/// What the pixel at column `x` is in the end: the background's, if no sprite on the line is
/// seen there, and otherwise that of the sprite that is seen there and beats the others.
#[verifier::rlimit(40)]
pub proof fn law_pixel(pic: Picture, x: int, i: int)
    requires
        pic.wf(),
        0 <= x < 160,
        0 <= i < 40,
    ensures
        ({
            let entry = pic.bg_entry(x);
            let first = !pic.cgb || pic.opri % 2 == 1;
            &&& (forall|j: int|
                0 <= j < 40 ==> !(#[trigger] pic.visible().contains(j) && pic.paints(j, x, entry)))
                ==> pic.pixel(x) == pic.bg_pixel(x)
            &&& pic.visible().contains(i) && pic.paints(i, x, entry) && (forall|j: int|
                0 <= j < 40 && j != i && #[trigger] pic.visible().contains(j) && pic.paints(
                    j,
                    x,
                    entry,
                ) ==> if first {
                    pic.oam[4 * i + 1] < pic.oam[4 * j + 1] || pic.oam[4 * i + 1] == pic.oam[4 * j
                        + 1] && i < j
                } else {
                    i < j
                }) ==> pic.pixel(x) == pic.sprite_rgb(i, pic.sprite_colour(i, x))
        }),
{
    let entry = pic.bg_entry(x);
    let all = pic.visible();
    bits::lemma_byte(pic.lcdc);
    bits::lemma_byte(pic.opri);
    let under = pic.bg_pixel(x);
    if pic.lcdc / 2 % 2 == 1 {
        crate::hw::frame::law_sprite_priority(pic);
        assert forall|k: int| 0 <= k < all.len() implies 0 <= #[trigger] all[k] < 40 by {
            assert(all.contains(all[k]));
            lemma_found_range(pic, 40);
        }
        if forall|j: int| 0 <= j < 40 ==> !(#[trigger] all.contains(j) && pic.paints(j, x, entry)) {
            assert forall|k: int| -1 < k < all.len() implies !pic.paints(
                #[trigger] all[k],
                x,
                entry,
            ) by {
                assert(all.contains(all[k]));
            }
            lemma_over(pic, all, x, entry, under, -1);
        }
        if all.contains(i) && pic.paints(i, x, entry) && (forall|j: int|
            0 <= j < 40 && j != i && #[trigger] all.contains(j) && pic.paints(j, x, entry)
                ==> if !pic.cgb || pic.opri % 2 == 1 {
                pic.oam[4 * i + 1] < pic.oam[4 * j + 1] || pic.oam[4 * i + 1] == pic.oam[4 * j + 1]
                    && i < j
            } else {
                i < j
            }) {
            let k = all.index_of(i);
            assert forall|m: int| k < m < all.len() implies !pic.paints(
                #[trigger] all[m],
                x,
                entry,
            ) by {
                assert(all[k] == i);
                assert(all.contains(all[m]));
                let j = all[m];
                assert(4 * i == i * 4 && 4 * j == j * 4);
            }
            lemma_over(pic, all, x, entry, under, k);
        }
    } else {
        assert(all.len() == 0);
    }
}

proof fn lemma_found_range(pic: Picture, n: nat)
    ensures
        forall|j: int| #[trigger] pic.found(n).contains(j) ==> 0 <= j < n,
    decreases n,
{
    if n > 0 {
        lemma_found_range(pic, (n - 1) as nat);
        let fewer = pic.found((n - 1) as nat);
        assert forall|j: int| #[trigger] pic.found(n).contains(j) implies 0 <= j < n by {
            let k = pic.found(n).index_of(j);
            if k < fewer.len() {
                assert(fewer[k] == j);
                assert(fewer.contains(j));
            }
        }
    }
}

/// Drawing puts the 160 pixels of the line in its place in the frame, from the left, and
/// leaves every other line as it was; the window's own line counter moves on when, and only
/// when, the window was on.
pub proof fn law_drawn(pic: Picture, x: int, y: int)
    requires
        pic.wf(),
        pic.ly < 144,
        0 <= x < 160,
        0 <= y < 144,
    ensures
        y == pic.ly ==> pic.drawn().framebuffer[160 * y + x] == pic.pixel(x),
        y != pic.ly ==> pic.drawn().framebuffer[160 * y + x] == pic.framebuffer[160 * y + x],
        pic.drawn().window_line == if (pic.cgb || pic.lcdc % 2 == 1) && pic.lcdc / 32 % 2 == 1
            && pic.wy <= pic.ly && pic.wx <= 166 {
            (pic.window_line + 1) % 256
        } else {
            pic.window_line as int
        },
        pic.drawn().vram == pic.vram,
        pic.drawn().oam == pic.oam,
{
    bits::lemma_byte(pic.lcdc);
}

} // verus!
