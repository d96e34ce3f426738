//! The bytes of a finished game, place by place.
use vstd::prelude::*;
use vstd::utf8;
use crate::bytes;
use crate::payload;
use crate::payload::crc;
use crate::payload::settings::{Choices, Model};
use crate::payload::{BlockEntry, Contents};

verus! {

/// The number that two bytes of `s` stand for, the low one first.
pub open spec fn two(s: Seq<u8>, at: int) -> int {
    s[at] + 256 * s[at + 1]
}

/// The number that four bytes of `s` stand for, the lowest first.
pub open spec fn four(s: Seq<u8>, at: int) -> int {
    s[at] + 256 * s[at + 1] + 65_536 * s[at + 2] + 16_777_216 * s[at + 3]
}

proof fn lemma_four(x: u32)
    ensures
        bytes::le32(x).len() == 4,
        four(bytes::le32(x), 0) == x,
{
}

/// Four bytes found inside a longer sequence.
proof fn lemma_four_at(s: Seq<u8>, at: int, x: u32)
    requires
        0 <= at,
        at + 4 <= s.len(),
        s.subrange(at, at + 4) == bytes::le32(x),
    ensures
        four(s, at) == x,
{
    lemma_four(x);
    let w = s.subrange(at, at + 4);
    assert(w[0] == s[at] && w[1] == s[at + 1] && w[2] == s[at + 2] && w[3] == s[at + 3]);
}

/// The end of a payload: eight letters, then the lengths of the ROM, the settings and the
/// code, the number of blocks, and the checksum of everything before, four bytes each.
#[verifier::rlimit(40)]
pub proof fn law_footer(contents: Contents)
    requires
        contents.rom.len() <= u32::MAX,
        contents.settings.encoded().len() <= u32::MAX,
        contents.code.len() <= u32::MAX,
        contents.blocks.len() <= u32::MAX,
    ensures
        ({
            let all = payload::payload_bytes(contents);
            let n = all.len() as int;
            &&& n >= 28
            &&& all[n - 28] == 'G' as u8
            &&& all[n - 27] == 'B' as u8
            &&& all[n - 26] == 'T' as u8
            &&& all[n - 25] == 'O' as u8
            &&& all[n - 24] == 'E' as u8
            &&& all[n - 23] == 'X' as u8
            &&& all[n - 22] == 'E' as u8
            &&& all[n - 21] == '1' as u8
            &&& four(all, n - 20) == contents.rom.len()
            &&& four(all, n - 16) == contents.settings.encoded().len()
            &&& four(all, n - 12) == contents.code.len()
            &&& four(all, n - 8) == contents.blocks.len()
            &&& four(all, n - 4) == crc::checksum(all.subrange(0, n - 28))
        }),
{
    let body = payload::body_bytes(contents);
    let all = payload::payload_bytes(contents);
    let n = all.len() as int;
    let (a, b, c, d, e) = (
        contents.rom.len() as u32,
        contents.settings.encoded().len() as u32,
        contents.code.len() as u32,
        contents.blocks.len() as u32,
        crc::checksum(body),
    );
    let foot = payload::footer_bytes(a, b, c, d, e);
    lemma_foot(a, b, c, d, e);
    lemma_behind(body, foot);
    assert(all.subrange(0, n - 28) =~= body);
}

/// What a footer of 28 bytes holds, it still holds behind other bytes.
proof fn lemma_behind(body: Seq<u8>, foot: Seq<u8>)
    requires
        foot.len() == 28,
    ensures
        ({
            let all = body + foot;
            let n = all.len() as int;
            &&& n == body.len() + 28
            &&& all[n - 28] == foot[0]
            &&& all[n - 27] == foot[1]
            &&& all[n - 26] == foot[2]
            &&& all[n - 25] == foot[3]
            &&& all[n - 24] == foot[4]
            &&& all[n - 23] == foot[5]
            &&& all[n - 22] == foot[6]
            &&& all[n - 21] == foot[7]
            &&& four(all, n - 20) == four(foot, 8)
            &&& four(all, n - 16) == four(foot, 12)
            &&& four(all, n - 12) == four(foot, 16)
            &&& four(all, n - 8) == four(foot, 20)
            &&& four(all, n - 4) == four(foot, 24)
        }),
{
}

#[verifier::rlimit(40)]
proof fn lemma_foot(a: u32, b: u32, c: u32, d: u32, e: u32)
    ensures
        ({
            let foot = payload::footer_bytes(a, b, c, d, e);
            &&& foot.len() == 28
            &&& foot[0] == 'G' as u8
            &&& foot[1] == 'B' as u8
            &&& foot[2] == 'T' as u8
            &&& foot[3] == 'O' as u8
            &&& foot[4] == 'E' as u8
            &&& foot[5] == 'X' as u8
            &&& foot[6] == 'E' as u8
            &&& foot[7] == '1' as u8
            &&& four(foot, 8) == a
            &&& four(foot, 12) == b
            &&& four(foot, 16) == c
            &&& four(foot, 20) == d
            &&& four(foot, 24) == e
        }),
{
    let magic = payload::MAGIC@;
    assert(magic.len() == 8 && magic[0] == 0x47 && magic[1] == 0x42 && magic[2] == 0x54 && magic[3]
        == 0x4f && magic[4] == 0x45 && magic[5] == 0x58 && magic[6] == 0x45 && magic[7] == 0x31);
    let foot = payload::footer_bytes(a, b, c, d, e);
    assert(foot.subrange(8, 12) =~= bytes::le32(a));
    assert(foot.subrange(12, 16) =~= bytes::le32(b));
    assert(foot.subrange(16, 20) =~= bytes::le32(c));
    assert(foot.subrange(20, 24) =~= bytes::le32(d));
    assert(foot.subrange(24, 28) =~= bytes::le32(e));
    lemma_four_at(foot, 8, a);
    lemma_four_at(foot, 12, b);
    lemma_four_at(foot, 16, c);
    lemma_four_at(foot, 20, d);
    lemma_four_at(foot, 24, e);
}

/// What comes before the footer: the ROM, the settings, the code and the block map, in that
/// order and with nothing between.
pub proof fn law_body(contents: Contents)
    ensures
        ({
            let all = payload::payload_bytes(contents);
            let rom = contents.rom.len() as int;
            let choices = rom + contents.settings.encoded().len();
            let code = choices + contents.code.len();
            let map = code + payload::map_bytes(contents.blocks).len();
            &&& all.len() == map + 28
            &&& all.subrange(0, rom) == contents.rom
            &&& all.subrange(rom, choices) == contents.settings.encoded()
            &&& all.subrange(choices, code) == contents.code
            &&& all.subrange(code, map) == payload::map_bytes(contents.blocks)
        }),
{
    let all = payload::payload_bytes(contents);
    let rom = contents.rom.len() as int;
    let choices = rom + contents.settings.encoded().len();
    let code = choices + contents.code.len();
    let map = code + payload::map_bytes(contents.blocks).len();
    assert(payload::MAGIC@.len() == 8);
    assert(all.subrange(0, rom) =~= contents.rom);
    assert(all.subrange(rom, choices) =~= contents.settings.encoded());
    assert(all.subrange(choices, code) =~= contents.code);
    assert(all.subrange(code, map) =~= payload::map_bytes(contents.blocks));
}

/// The block map: ten bytes for every block, its bank, its address, where its code begins
/// and where the game's code ends.
#[verifier::rlimit(40)]
pub proof fn law_block_map(blocks: Seq<BlockEntry>, i: int)
    requires
        0 <= i < blocks.len(),
    ensures
        ({
            let map = payload::map_bytes(blocks);
            &&& map.len() == 10 * blocks.len()
            &&& two(map, 10 * i) == blocks[i].bank
            &&& two(map, 10 * i + 2) == blocks[i].addr
            &&& four(map, 10 * i + 4) == blocks[i].offset
            &&& two(map, 10 * i + 8) == blocks[i].end
        }),
    decreases blocks.len(),
{
    let map = payload::map_bytes(blocks);
    let rest = blocks.drop_last();
    let before = payload::map_bytes(rest);
    lemma_map_length(rest);
    if i < blocks.len() - 1 {
        law_block_map(rest, i);
        assert forall|k: int| 10 * i <= k < 10 * i + 10 implies #[trigger] map[k] == before[k] by {}
        assert(map[10 * i] == before[10 * i] && map[10 * i + 1] == before[10 * i + 1] && map[10 * i
            + 2] == before[10 * i + 2] && map[10 * i + 3] == before[10 * i + 3] && map[10 * i + 4]
            == before[10 * i + 4] && map[10 * i + 5] == before[10 * i + 5] && map[10 * i + 6]
            == before[10 * i + 6] && map[10 * i + 7] == before[10 * i + 7] && map[10 * i + 8]
            == before[10 * i + 8] && map[10 * i + 9] == before[10 * i + 9]);
    } else {
        let e = payload::entry_bytes(blocks.last());
        lemma_entry(blocks.last());
        assert(map[10 * i] == e[0] && map[10 * i + 1] == e[1] && map[10 * i + 2] == e[2] && map[10
            * i + 3] == e[3] && map[10 * i + 4] == e[4] && map[10 * i + 5] == e[5] && map[10 * i + 6]
            == e[6] && map[10 * i + 7] == e[7] && map[10 * i + 8] == e[8] && map[10 * i + 9] == e[9]);
    }
}

proof fn lemma_map_length(blocks: Seq<BlockEntry>)
    ensures
        payload::map_bytes(blocks).len() == 10 * blocks.len(),
    decreases blocks.len(),
{
    if blocks.len() > 0 {
        lemma_map_length(blocks.drop_last());
    }
}

proof fn lemma_entry(b: BlockEntry)
    ensures
        ({
            let e = payload::entry_bytes(b);
            &&& e.len() == 10
            &&& two(e, 0) == b.bank
            &&& two(e, 2) == b.addr
            &&& four(e, 4) == b.offset
            &&& two(e, 8) == b.end
        }),
{
    let e = payload::entry_bytes(b);
    assert(e.subrange(4, 8) =~= bytes::le32(b.offset));
    lemma_four_at(e, 4, b.offset);
}

/// The stored settings: the format's version, the model, the four shades, the scale, the
/// three switches with the volume among them, the sample rate, and the two names, each
/// behind its length.
#[verifier::rlimit(40)]
pub proof fn law_settings(choices: Choices)
    requires
        choices.palette.len() == 4,
        utf8::encode_utf8(choices.title).len() <= 0xffff,
        utf8::encode_utf8(choices.save_name).len() <= 0xffff,
    ensures
        ({
            let s = choices.encoded();
            let title = utf8::encode_utf8(choices.title);
            let name = utf8::encode_utf8(choices.save_name);
            let t = title.len() as int;
            let n = name.len() as int;
            &&& s[0] == 1
            &&& s[1] == (match choices.model {
                Model::Auto => 0u8,
                Model::Dmg => 1u8,
                Model::Cgb => 2u8,
            })
            &&& four(s, 2) == choices.palette[0]
            &&& four(s, 6) == choices.palette[1]
            &&& four(s, 10) == choices.palette[2]
            &&& four(s, 14) == choices.palette[3]
            &&& s[18] == choices.scale
            &&& s[19] == (if choices.fullscreen { 1u8 } else { 0u8 })
            &&& s[20] == (if choices.audio { 1u8 } else { 0u8 })
            &&& s[21] == choices.volume
            &&& four(s, 22) == choices.sample_rate
            &&& s[26] == (if choices.keep_aspect { 1u8 } else { 0u8 })
            &&& two(s, 27) == title.len()
            &&& s.subrange(29, 29 + t) == title
            &&& two(s, 29 + t) == name.len()
            &&& s.subrange(31 + t, 31 + t + n) == name
            &&& s.len() == 31 + t + n
        }),
{
    let s = choices.encoded();
    let f = choices.fixed_part();
    let title = utf8::encode_utf8(choices.title);
    let name = utf8::encode_utf8(choices.save_name);
    let t = title.len() as int;
    let n = name.len() as int;
    assert(f.len() == 27);
    assert(s.subrange(0, 27) =~= f);
    assert(f.subrange(2, 6) =~= bytes::le32(choices.palette[0]));
    assert(f.subrange(6, 10) =~= bytes::le32(choices.palette[1]));
    assert(f.subrange(10, 14) =~= bytes::le32(choices.palette[2]));
    assert(f.subrange(14, 18) =~= bytes::le32(choices.palette[3]));
    assert(f.subrange(22, 26) =~= bytes::le32(choices.sample_rate));
    assert(s.subrange(2, 6) =~= f.subrange(2, 6));
    assert(s.subrange(6, 10) =~= f.subrange(6, 10));
    assert(s.subrange(10, 14) =~= f.subrange(10, 14));
    assert(s.subrange(14, 18) =~= f.subrange(14, 18));
    assert(s.subrange(22, 26) =~= f.subrange(22, 26));
    lemma_four_at(s, 2, choices.palette[0]);
    lemma_four_at(s, 6, choices.palette[1]);
    lemma_four_at(s, 10, choices.palette[2]);
    lemma_four_at(s, 14, choices.palette[3]);
    lemma_four_at(s, 22, choices.sample_rate);
    assert(s[0] == f[0] && s[1] == f[1] && s[18] == f[18] && s[19] == f[19] && s[20] == f[20]
        && s[21] == f[21] && s[26] == f[26]);
    let first = crate::payload::settings::string_bytes(choices.title);
    let second = crate::payload::settings::string_bytes(choices.save_name);
    assert(first.len() == 2 + title.len() && second.len() == 2 + name.len());
    assert(s[27] == first[0] && s[28] == first[1]);
    assert(s[29 + t] == second[0] && s[30 + t] == second[1]);
    assert(s.subrange(29, 29 + t) =~= title);
    assert(s.subrange(31 + t, 31 + t + n) =~= name);
}

proof fn lemma_residue(r: u32)
    by (bit_vector)
    ensures
        crc::octet(0xff) == 0x2d02ef8d,
        crc::octet(0x72) == 0xbe0b1010,
        crc::octet(0x0) == 0x0,
        crc::octet(0xed) == 0xdebb9ec5,
        ((0x0 ^ (r >> 0u32)) ^ ((!r >> 0u32) & 0xff)) & 0xff == 0xff,
        0x2d02ef8d ^ (((0x0 ^ (r >> 0u32)) ^ ((!r >> 0u32) & 0xff)) >> 8u32) == 0x2d02ef8d ^ (r >> 8u32),
        ((0x2d02ef8d ^ (r >> 8u32)) ^ ((!r >> 8u32) & 0xff)) & 0xff == 0x72,
        0xbe0b1010 ^ (((0x2d02ef8d ^ (r >> 8u32)) ^ ((!r >> 8u32) & 0xff)) >> 8u32) == 0xbe2612ff ^ (r >> 16u32),
        ((0xbe2612ff ^ (r >> 16u32)) ^ ((!r >> 16u32) & 0xff)) & 0xff == 0x0,
        0x0 ^ (((0xbe2612ff ^ (r >> 16u32)) ^ ((!r >> 16u32) & 0xff)) >> 8u32) == 0xbe2612 ^ (r >> 24u32),
        ((0xbe2612 ^ (r >> 24u32)) ^ ((!r >> 24u32) & 0xff)) & 0xff == 0xed,
        0xdebb9ec5 ^ (((0xbe2612 ^ (r >> 24u32)) ^ ((!r >> 24u32) & 0xff)) >> 8u32) == 0xdebb20e3,
        0 ^ (r >> 0u32) == r,
        !r % 256 == (!r >> 0u32) & 0xff,
        !r / 256 % 256 == (!r >> 8u32) & 0xff,
        !r / 0x1_0000 % 256 == (!r >> 16u32) & 0xff,
        !r / 0x100_0000 == (!r >> 24u32) & 0xff,
        !0xdebb_20e3u32 == 0x2144_df1cu32,
{
}

/// Data with its own checksum behind it, the lowest byte first, has the same checksum
/// whatever the data: the residue by which a CRC-32 is known.
pub proof fn law_residue(data: Seq<u8>)
    ensures
        crc::checksum(data + bytes::le32(crc::checksum(data))) == 0x2144_df1c,
{
    let r = crc::register(data);
    let sum = bytes::le32(crc::checksum(data));
    let whole = data + sum;
    let d3 = whole.drop_last();
    let d2 = d3.drop_last();
    let d1 = d2.drop_last();
    assert(d1.drop_last() =~= data);
    assert(whole.last() == sum[3] && d3.last() == sum[2] && d2.last() == sum[1] && d1.last()
        == sum[0]);
    lemma_residue(r);
    let c0 = r ^ sum[0] as u32;
    crc::lemma_octet_splits(c0);
    assert(crc::register(d1) == 0x2d02ef8d ^ (r >> 8u32));
    let c1 = crc::register(d1) ^ sum[1] as u32;
    crc::lemma_octet_splits(c1);
    assert(crc::register(d2) == 0xbe2612ff ^ (r >> 16u32));
    let c2 = crc::register(d2) ^ sum[2] as u32;
    crc::lemma_octet_splits(c2);
    assert(crc::register(d3) == 0xbe2612 ^ (r >> 24u32));
    let c3 = crc::register(d3) ^ sum[3] as u32;
    crc::lemma_octet_splits(c3);
    assert(crc::register(whole) == 0xdebb_20e3);
}

} // verus!
