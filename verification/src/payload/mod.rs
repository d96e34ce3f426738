//! The payload that is stapled to the runtime stub.
//!
//! PE and ELF images both ignore bytes past the end of the last section, so the
//! converted game can simply be stapled to the tail of a finished executable.
//! The footer goes last so the runtime can find it by seeking backwards from EOF.
//!
//! ```text
//! [ runtime stub ][ rom ][ settings ][ translated code ][ block map ][ footer ]
//! ```
//!
//! The translated code is the real payload: native x86-64 produced by the
//! recompiler. It contains no absolute addresses, so it is valid wherever the
//! loader puts it, and the block map says which Game Boy address each entry
//! point in it corresponds to.
use vstd::prelude::*;
use crate::bytes;
use crate::payload::settings::{Choices, Settings};
use crate::recomp::exec::BlockKey;

pub mod crc;
pub mod layout;
pub mod settings;

verus! {

/// The footer's first eight bytes: `GBTOEXE1`.
pub const MAGIC: [u8; 8] = [0x47, 0x42, 0x54, 0x4f, 0x45, 0x58, 0x45, 0x31];

pub const FOOTER_LEN: usize = 28;

/// One translated basic block's place in the code image.
#[derive(Debug, Clone, Copy, PartialEq, Eq, Structural)]
pub struct BlockEntry {
    /// ROM bank this block was translated for; 0 for the fixed window.
    pub bank: u16,
    /// Game Boy address the block starts at.
    pub addr: u16,
    /// Byte offset of its entry point within the code image.
    pub offset: u32,
    /// One past the last Game Boy address it covers.
    pub end: u16,
}

pub const BLOCK_ENTRY_LEN: usize = 10;

pub struct Payload {
    pub rom: Vec<u8>,
    pub settings: Settings,
    /// Native x86-64 for everything the converter could resolve ahead of time.
    pub code: Vec<u8>,
    pub blocks: Vec<BlockEntry>,
}

/// What a [`Payload`] holds.
pub struct Contents {
    pub rom: Seq<u8>,
    pub settings: Choices,
    pub code: Seq<u8>,
    pub blocks: Seq<BlockEntry>,
}

impl View for Payload {
    type V = Contents;

    open spec fn view(&self) -> Contents {
        Contents {
            rom: self.rom@,
            settings: self.settings@,
            code: self.code@,
            blocks: self.blocks@,
        }
    }
}

impl Payload {
    /// A ROM that was never converted, under the name of its file: the usual settings,
    /// and nothing translated ahead of time.
    pub fn bare(rom: Vec<u8>, stem: &str) -> (payload: Payload)
        ensures
            payload@ == (Contents {
                rom: rom@,
                settings: Choices { title: stem@, save_name: stem@, ..Choices::standard() },
                code: seq![],
                blocks: seq![],
            }),
    {
        let mut settings = Settings::default();
        settings.title = String::from_str(stem);
        settings.save_name = String::from_str(stem);
        let payload = Payload { rom, settings, code: Vec::new(), blocks: Vec::new() };
        assert(payload.code@ =~= seq![]);
        assert(payload.blocks@ =~= seq![]);
        payload
    }
}

#[derive(Debug)]
pub enum ReadError {
    /// No payload footer; this is a bare stub, not a converted game.
    NotPresent,
    Corrupt(&'static str),
}

impl ReadError {
    /// The error in words.
    pub fn message(&self) -> (text: String)
        ensures
            text@ == match *self {
                ReadError::NotPresent => "no embedded ROM"@,
                ReadError::Corrupt(what) => "embedded ROM is damaged: "@ + what@,
            },
    {
        match self {
            ReadError::NotPresent => String::from_str("no embedded ROM"),
            ReadError::Corrupt(what) => {
                let mut text = String::from_str("embedded ROM is damaged: ");
                text.append(what);
                text
            },
        }
    }
}

// ---- the format ----------------------------------------------------------

/// A block map entry as it is stored.
pub open spec fn entry_bytes(b: BlockEntry) -> Seq<u8> {
    bytes::le16(b.bank) + bytes::le16(b.addr) + bytes::le32(b.offset) + bytes::le16(b.end)
}

/// The block map as it is stored.
pub open spec fn map_bytes(blocks: Seq<BlockEntry>) -> Seq<u8>
    decreases blocks.len(),
{
    if blocks.len() == 0 {
        seq![]
    } else {
        map_bytes(blocks.drop_last()) + entry_bytes(blocks.last())
    }
}

/// Everything before the footer.
pub open spec fn body_bytes(contents: Contents) -> Seq<u8> {
    contents.rom + contents.settings.encoded() + contents.code + map_bytes(contents.blocks)
}

/// The footer: the magic bytes, the four lengths, and the checksum of the body.
pub open spec fn footer_bytes(rom: u32, settings: u32, code: u32, blocks: u32, sum: u32) -> Seq<
    u8,
> {
    MAGIC@ + bytes::le32(rom) + bytes::le32(settings) + bytes::le32(code) + bytes::le32(blocks)
        + bytes::le32(sum)
}

/// The whole payload.
pub open spec fn payload_bytes(contents: Contents) -> Seq<u8> {
    let body = body_bytes(contents);
    body + footer_bytes(
        contents.rom.len() as u32,
        contents.settings.encoded().len() as u32,
        contents.code.len() as u32,
        contents.blocks.len() as u32,
        crc::checksum(body),
    )
}

/// The lengths and the checksum that a footer states.
pub struct Footer {
    pub rom: u32,
    pub settings: u32,
    pub code: u32,
    pub blocks: u32,
    pub sum: u32,
}

/// Whether `image` ends in a footer.
pub open spec fn stamped(image: Seq<u8>) -> bool {
    image.len() >= FOOTER_LEN && image.subrange(
        image.len() - FOOTER_LEN,
        image.len() - FOOTER_LEN + 8,
    ) == MAGIC@
}

/// What the footer of a stamped image states.
pub open spec fn footer_of(image: Seq<u8>) -> Footer {
    let at = image.len() - FOOTER_LEN;
    Footer {
        rom: bytes::from_le32(image, at + 8),
        settings: bytes::from_le32(image, at + 12),
        code: bytes::from_le32(image, at + 16),
        blocks: bytes::from_le32(image, at + 20),
        sum: bytes::from_le32(image, at + 24),
    }
}

impl Footer {
    /// The length of the body that the footer belongs to.
    pub open spec fn body_len(self) -> int {
        self.rom + self.settings + self.code + self.blocks * BLOCK_ENTRY_LEN
    }
}

/// The body of a stamped image that is long enough to hold it.
pub open spec fn body_of(image: Seq<u8>) -> Seq<u8> {
    let end = image.len() - FOOTER_LEN;
    image.subrange(end - footer_of(image).body_len(), end)
}

/// The settings part of the body.
pub open spec fn settings_of(image: Seq<u8>) -> Seq<u8> {
    let f = footer_of(image);
    body_of(image).subrange(f.rom as int, f.rom + f.settings)
}

/// What is wrong with `image`, in the order it is looked at.
pub enum Fault {
    Absent,
    Damaged(Seq<char>),
}

/// What keeps `image` from holding a payload, if anything does.
pub open spec fn fault(image: Seq<u8>) -> Option<Fault> {
    let f = footer_of(image);
    if !stamped(image) {
        Some(Fault::Absent)
    } else if f.body_len() > usize::MAX {
        Some(Fault::Damaged("implausible length"@))
    } else if f.body_len() + FOOTER_LEN > image.len() {
        Some(Fault::Damaged("truncated file"@))
    } else if crc::checksum(body_of(image)) != f.sum {
        Some(Fault::Damaged("checksum mismatch"@))
    } else if !Choices::readable(settings_of(image)) {
        Some(Fault::Damaged("unreadable settings"@))
    } else {
        None
    }
}

/// The block map entry stored at `at`.
pub open spec fn entry_at(body: Seq<u8>, at: int) -> BlockEntry {
    BlockEntry {
        bank: bytes::from_le16(body, at),
        addr: bytes::from_le16(body, at + 2),
        offset: bytes::from_le32(body, at + 4),
        end: bytes::from_le16(body, at + 8),
    }
}

/// The payload that `image` holds, where nothing is wrong with it.
pub open spec fn contents_of(image: Seq<u8>) -> Contents {
    let f = footer_of(image);
    let body = body_of(image);
    let code_at = f.rom + f.settings;
    Contents {
        rom: body.take(f.rom as int),
        settings: Choices::decoded(settings_of(image)),
        code: body.subrange(code_at, code_at + f.code),
        blocks: Seq::new(
            f.blocks as nat,
            |i: int| entry_at(body, code_at + f.code + i * BLOCK_ENTRY_LEN),
        ),
    }
}

// ---- writing -------------------------------------------------------------

fn push_map(out: &mut Vec<u8>, blocks: &[BlockEntry])
    ensures
        final(out)@ == old(out)@ + map_bytes(blocks@),
{
    assert(old(out)@ + map_bytes(blocks@.take(0)) =~= old(out)@);
    for i in 0..blocks.len()
        invariant
            out@ == old(out)@ + map_bytes(blocks@.take(i as int)),
    {
        let b = blocks[i];
        bytes::push_le16(out, b.bank);
        bytes::push_le16(out, b.addr);
        bytes::push_le32(out, b.offset);
        bytes::push_le16(out, b.end);
        assert(blocks@.take(i + 1).drop_last() =~= blocks@.take(i as int));
        assert(out@ =~= old(out)@ + map_bytes(blocks@.take(i + 1)));
    }
    assert(blocks@.take(blocks@.len() as int) =~= blocks@);
}

/// Build the bytes to append to a stub executable.
pub fn build(rom: &[u8], settings: &Settings, code: &[u8], blocks: &[BlockEntry]) -> (data: Vec<u8>)
    ensures
        data@ == payload_bytes(
            Contents { rom: rom@, settings: settings@, code: code@, blocks: blocks@ },
        ),
{
    let ghost contents = Contents {
        rom: rom@,
        settings: settings@,
        code: code@,
        blocks: blocks@,
    };
    let encoded = settings.encode();
    let mut body: Vec<u8> = Vec::new();
    bytes::push_all(&mut body, rom);
    bytes::push_all(&mut body, encoded.as_slice());
    bytes::push_all(&mut body, code);
    push_map(&mut body, blocks);
    assert(body@ =~= body_bytes(contents));

    let sum: u32 = crc::crc32(body.as_slice());
    bytes::push_all(&mut body, MAGIC.as_slice());
    bytes::push_le32(&mut body, rom.len() as u32);
    bytes::push_le32(&mut body, encoded.len() as u32);
    bytes::push_le32(&mut body, code.len() as u32);
    bytes::push_le32(&mut body, blocks.len() as u32);
    bytes::push_le32(&mut body, sum);
    assert(body@ =~= payload_bytes(contents));
    body
}

// ---- reading -------------------------------------------------------------

fn is_stamped(image: &[u8]) -> (yes: bool)
    ensures
        yes == stamped(image@),
{
    if image.len() < FOOTER_LEN {
        return false;
    }
    let at: usize = image.len() - FOOTER_LEN;
    let ghost found = image@.subrange(at as int, at + 8);
    for i in 0..8usize
        invariant
            image@.len() >= FOOTER_LEN,
            at == image@.len() - FOOTER_LEN,
            at + FOOTER_LEN <= usize::MAX,
            found == image@.subrange(at as int, at + 8),
            forall|j: int| 0 <= j < i ==> #[trigger] found[j] == MAGIC@[j],
    {
        assert(found[i as int] == image@[at + i]);
        if image[at + i] != MAGIC[i] {
            return false;
        }
    }
    assert(found =~= MAGIC@);
    true
}

fn read_map(body: &[u8], at: usize, count: usize) -> (blocks: Vec<BlockEntry>)
    requires
        at + count * BLOCK_ENTRY_LEN <= body@.len(),
    ensures
        blocks@ == Seq::new(count as nat, |i: int| entry_at(body@, at + i * BLOCK_ENTRY_LEN)),
{
    let ghost all = Seq::new(count as nat, |i: int| entry_at(body@, at + i * BLOCK_ENTRY_LEN));
    let mut blocks: Vec<BlockEntry> = Vec::new();
    let mut cursor: usize = at;
    let len: usize = body.len();
    for i in 0..count
        invariant
            len == body@.len(),
            at + count * BLOCK_ENTRY_LEN <= len,
            cursor == at + i * BLOCK_ENTRY_LEN,
            all == Seq::new(count as nat, |i: int| entry_at(body@, at + i * BLOCK_ENTRY_LEN)),
            blocks@ == all.take(i as int),
    {
        blocks.push(
            BlockEntry {
                bank: bytes::get_le16(body, cursor),
                addr: bytes::get_le16(body, cursor + 2),
                offset: bytes::get_le32(body, cursor + 4),
                end: bytes::get_le16(body, cursor + 8),
            },
        );
        assert(blocks@ =~= all.take(i + 1));
        cursor += BLOCK_ENTRY_LEN;
    }
    assert(all.take(count as int) =~= all);
    blocks
}

/// Pull the payload out of a whole executable image held in memory.
pub fn extract(image: &[u8]) -> (result: Result<Payload, ReadError>)
    ensures
        match result {
            Ok(payload) => fault(image@) is None && payload@ == contents_of(image@),
            Err(ReadError::NotPresent) => fault(image@) == Some(Fault::Absent),
            Err(ReadError::Corrupt(what)) => fault(image@) == Some(Fault::Damaged(what@)),
        },
{
    if !is_stamped(image) {
        return Err(ReadError::NotPresent);
    }
    let end: usize = image.len() - FOOTER_LEN;
    let rom_len: u32 = bytes::get_le32(image, end + 8);
    let settings_len: u32 = bytes::get_le32(image, end + 12);
    let code_len: u32 = bytes::get_le32(image, end + 16);
    let block_count: u32 = bytes::get_le32(image, end + 20);
    let expected: u32 = bytes::get_le32(image, end + 24);

    let total: u64 = rom_len as u64 + settings_len as u64 + code_len as u64 + block_count as u64
        * BLOCK_ENTRY_LEN as u64;
    if total > usize::MAX as u64 {
        return Err(ReadError::Corrupt("implausible length"));
    }
    if total > end as u64 {
        return Err(ReadError::Corrupt("truncated file"));
    }
    let start: usize = end - total as usize;
    let body = vstd::slice::slice_subrange(image, start, end);
    assert(body@ == body_of(image@));
    if crc::crc32(body) != expected {
        return Err(ReadError::Corrupt("checksum mismatch"));
    }
    let settings_at: usize = rom_len as usize;
    let code_at: usize = settings_at + settings_len as usize;
    let map_at: usize = code_at + code_len as usize;
    let settings = match Settings::decode(vstd::slice::slice_subrange(body, settings_at, code_at)) {
        Some(settings) => settings,
        None => return Err(ReadError::Corrupt("unreadable settings")),
    };
    let rom = vstd::slice::slice_to_vec(vstd::slice::slice_subrange(body, 0, settings_at));
    let code = vstd::slice::slice_to_vec(vstd::slice::slice_subrange(body, code_at, map_at));
    let blocks = read_map(body, map_at, block_count as usize);
    assert(rom@ =~= contents_of(image@).rom);
    assert(code@ =~= contents_of(image@).code);
    assert(blocks@ =~= contents_of(image@).blocks);
    Ok(Payload { rom, settings, code, blocks })
}

// ---- laws ----------------------------------------------------------------

proof fn lemma_map_len(blocks: Seq<BlockEntry>)
    ensures
        map_bytes(blocks).len() == blocks.len() * BLOCK_ENTRY_LEN,
    decreases blocks.len(),
{
    if blocks.len() > 0 {
        lemma_map_len(blocks.drop_last());
    }
}

proof fn lemma_entry(body: Seq<u8>, at: int, b: BlockEntry)
    requires
        0 <= at,
        at + BLOCK_ENTRY_LEN <= body.len(),
        body.subrange(at, at + BLOCK_ENTRY_LEN) == entry_bytes(b),
    ensures
        entry_at(body, at) == b,
{
    let here = body.subrange(at, at + BLOCK_ENTRY_LEN);
    assert(body.subrange(at, at + 2) =~= here.subrange(0, 2));
    assert(body.subrange(at + 2, at + 4) =~= here.subrange(2, 4));
    assert(body.subrange(at + 4, at + 8) =~= here.subrange(4, 8));
    assert(body.subrange(at + 8, at + 10) =~= here.subrange(8, 10));
    assert(here.subrange(0, 2) =~= bytes::le16(b.bank));
    assert(here.subrange(2, 4) =~= bytes::le16(b.addr));
    assert(here.subrange(4, 8) =~= bytes::le32(b.offset));
    assert(here.subrange(8, 10) =~= bytes::le16(b.end));
    bytes::lemma_le16_round_trip(body, at, b.bank);
    bytes::lemma_le16_round_trip(body, at + 2, b.addr);
    bytes::lemma_le32_round_trip(body, at + 4, b.offset);
    bytes::lemma_le16_round_trip(body, at + 8, b.end);
}

proof fn lemma_map_reads_back(body: Seq<u8>, at: int, blocks: Seq<BlockEntry>, i: int)
    requires
        0 <= at,
        0 <= i < blocks.len(),
        at + blocks.len() * BLOCK_ENTRY_LEN <= body.len(),
        body.subrange(at, at + blocks.len() * BLOCK_ENTRY_LEN) == map_bytes(blocks),
    ensures
        entry_at(body, at + i * BLOCK_ENTRY_LEN) == blocks[i],
    decreases blocks.len(),
{
    let n = blocks.len() as int;
    let fewer = blocks.drop_last();
    let last = at + (n - 1) * BLOCK_ENTRY_LEN;
    lemma_map_len(blocks);
    lemma_map_len(fewer);
    let all = body.subrange(at, at + n * BLOCK_ENTRY_LEN);
    if i == n - 1 {
        assert(body.subrange(last, last + BLOCK_ENTRY_LEN) =~= all.subrange(
            (n - 1) * BLOCK_ENTRY_LEN,
            n * BLOCK_ENTRY_LEN,
        ));
        assert(all.subrange((n - 1) * BLOCK_ENTRY_LEN, n * BLOCK_ENTRY_LEN) =~= entry_bytes(
            blocks.last(),
        ));
        lemma_entry(body, last, blocks[i]);
    } else {
        assert(body.subrange(at, last) =~= all.take((n - 1) * BLOCK_ENTRY_LEN));
        assert(all.take((n - 1) * BLOCK_ENTRY_LEN) =~= map_bytes(fewer));
        lemma_map_reads_back(body, at, fewer, i);
    }
}

/// Whether `contents` fits the format: every length fits its field, and the strings
/// theirs.
pub open spec fn fits(contents: Contents) -> bool {
    &&& contents.rom.len() <= u32::MAX
    &&& contents.code.len() <= u32::MAX
    &&& contents.blocks.len() <= u32::MAX
    &&& contents.settings.palette.len() == 4
    &&& vstd::utf8::encode_utf8(contents.settings.title).len() <= settings::STRING_MAX
    &&& vstd::utf8::encode_utf8(contents.settings.save_name).len() <= settings::STRING_MAX
}

proof fn lemma_footer(stub: Seq<u8>, body: Seq<u8>, f: Footer)
    requires
        body.len() == f.body_len(),
    ensures
        ({
            let image = stub + (body + footer_bytes(f.rom, f.settings, f.code, f.blocks, f.sum));
            &&& stamped(image)
            &&& footer_of(image) == f
            &&& body_of(image) == body
            &&& image.len() == stub.len() + body.len() + FOOTER_LEN
        }),
{
    let tail = footer_bytes(f.rom, f.settings, f.code, f.blocks, f.sum);
    let image = stub + (body + tail);
    let at = image.len() - FOOTER_LEN;
    lemma_tail(f);
    assert(at == stub.len() + body.len());
    assert(image.subrange(at, at + 8) =~= tail.subrange(0, 8));
    assert(footer_of(image) == f) by {
        lemma_field(stub, body, tail, 8, f.rom);
        lemma_field(stub, body, tail, 12, f.settings);
        lemma_field(stub, body, tail, 16, f.code);
        lemma_field(stub, body, tail, 20, f.blocks);
        lemma_field(stub, body, tail, 24, f.sum);
    }
    assert(image.subrange(at - body.len(), at) =~= body);
}

/// A field of the footer reads back out of the image.
proof fn lemma_field(stub: Seq<u8>, body: Seq<u8>, tail: Seq<u8>, off: int, x: u32)
    requires
        0 <= off,
        off + 4 <= tail.len(),
        tail.subrange(off, off + 4) == bytes::le32(x),
    ensures
        bytes::from_le32(stub + (body + tail), stub.len() + body.len() + off) == x,
{
    let image = stub + (body + tail);
    let at = stub.len() + body.len() + off;
    assert(image.subrange(at, at + 4) =~= tail.subrange(off, off + 4));
    bytes::lemma_le32_round_trip(image, at, x);
}

proof fn lemma_tail(f: Footer)
    ensures
        ({
            let tail = footer_bytes(f.rom, f.settings, f.code, f.blocks, f.sum);
            &&& tail.len() == FOOTER_LEN
            &&& tail.subrange(0, 8) == MAGIC@
            &&& tail.subrange(8, 12) == bytes::le32(f.rom)
            &&& tail.subrange(12, 16) == bytes::le32(f.settings)
            &&& tail.subrange(16, 20) == bytes::le32(f.code)
            &&& tail.subrange(20, 24) == bytes::le32(f.blocks)
            &&& tail.subrange(24, 28) == bytes::le32(f.sum)
        }),
{
    let tail = footer_bytes(f.rom, f.settings, f.code, f.blocks, f.sum);
    assert(tail.subrange(0, 8) =~= MAGIC@);
    assert(tail.subrange(8, 12) =~= bytes::le32(f.rom));
    assert(tail.subrange(12, 16) =~= bytes::le32(f.settings));
    assert(tail.subrange(16, 20) =~= bytes::le32(f.code));
    assert(tail.subrange(20, 24) =~= bytes::le32(f.blocks));
    assert(tail.subrange(24, 28) =~= bytes::le32(f.sum));
}

/// The footer that `contents` is stored with.
pub open spec fn footer_for(contents: Contents) -> Footer {
    Footer {
        rom: contents.rom.len() as u32,
        settings: contents.settings.encoded().len() as u32,
        code: contents.code.len() as u32,
        blocks: contents.blocks.len() as u32,
        sum: crc::checksum(body_bytes(contents)),
    }
}

/// The four parts of a body.
proof fn lemma_parts(rom: Seq<u8>, enc: Seq<u8>, code: Seq<u8>, map: Seq<u8>)
    ensures
        ({
            let body = rom + enc + code + map;
            let code_at = (rom.len() + enc.len()) as int;
            let map_at = code_at + code.len();
            &&& body.len() == map_at + map.len()
            &&& body.take(rom.len() as int) == rom
            &&& body.subrange(rom.len() as int, code_at) == enc
            &&& body.subrange(code_at, map_at) == code
            &&& body.subrange(map_at, map_at + map.len()) == map
        }),
{
    let body = rom + enc + code + map;
    let code_at = (rom.len() + enc.len()) as int;
    let map_at = code_at + code.len();
    assert(body.take(rom.len() as int) =~= rom);
    assert(body.subrange(rom.len() as int, code_at) =~= enc);
    assert(body.subrange(code_at, map_at) =~= code);
    assert(body.subrange(map_at, map_at + map.len()) =~= map);
}

/// The block map read back out of a body.
proof fn lemma_blocks_read_back(body: Seq<u8>, map_at: int, blocks: Seq<BlockEntry>)
    requires
        0 <= map_at,
        map_at + blocks.len() * BLOCK_ENTRY_LEN <= body.len(),
        body.subrange(map_at, map_at + blocks.len() * BLOCK_ENTRY_LEN) == map_bytes(blocks),
    ensures
        Seq::new(blocks.len(), |i: int| entry_at(body, map_at + i * BLOCK_ENTRY_LEN)) == blocks,
{
    let found = Seq::new(blocks.len(), |i: int| entry_at(body, map_at + i * BLOCK_ENTRY_LEN));
    assert forall|i: int| 0 <= i < blocks.len() implies #[trigger] found[i] == blocks[i] by {
        lemma_map_reads_back(body, map_at, blocks, i);
    }
    assert(found =~= blocks);
}

/// A payload is found at the end of any stub, and comes out as it went in.
pub proof fn law_payload_is_found(stub: Seq<u8>, contents: Contents)
    requires
        fits(contents),
        (stub + payload_bytes(contents)).len() <= usize::MAX,
    ensures
        fault(stub + payload_bytes(contents)) is None,
        contents_of(stub + payload_bytes(contents)) == contents,
{
    let image = stub + payload_bytes(contents);
    let body = body_bytes(contents);
    let f = footer_for(contents);
    let enc = contents.settings.encoded();
    let map_at = f.rom + f.settings + f.code;
    settings::lemma_encoded_len(contents.settings);
    lemma_map_len(contents.blocks);
    lemma_parts(contents.rom, enc, contents.code, map_bytes(contents.blocks));
    lemma_footer(stub, body, f);
    assert(Choices::readable(enc) && Choices::decoded(enc) == contents.settings) by {
        settings::law_settings_survive(contents.settings, seq![]);
        assert(enc + Seq::<u8>::empty() =~= enc);
    }
    lemma_blocks_read_back(body, map_at, contents.blocks);
    assert(contents_of(image).blocks =~= contents.blocks);
}

/// A payload with one damaged byte, anywhere in the ROM, the settings, the translated
/// code or the block map, is refused: running it would be catastrophic.
pub proof fn law_damage_is_caught(stub: Seq<u8>, contents: Contents, at: int, value: u8)
    requires
        fits(contents),
        (stub + payload_bytes(contents)).len() <= usize::MAX,
        stub.len() <= at < stub.len() + body_bytes(contents).len(),
        value != (stub + payload_bytes(contents))[at],
    ensures
        fault((stub + payload_bytes(contents)).update(at, value)) == Some(
            Fault::Damaged("checksum mismatch"@),
        ),
{
    let body = body_bytes(contents);
    let f = footer_for(contents);
    settings::lemma_encoded_len(contents.settings);
    lemma_map_len(contents.blocks);
    let image = stub + payload_bytes(contents);
    let other = body.update(at - stub.len(), value);
    let tail = footer_bytes(f.rom, f.settings, f.code, f.blocks, f.sum);
    assert(body[at - stub.len()] == image[at]);
    assert(image.update(at, value) =~= stub + (other + tail));
    lemma_footer(stub, other, f);
    crc::law_one_byte_shows(body, other, at - stub.len());
}

/// An image is taken for a bare stub, rather than for a damaged game, exactly where the
/// magic bytes are missing.
pub proof fn law_bare_stub(image: Seq<u8>)
    ensures
        fault(image) == Some(Fault::Absent) <==> image.len() < FOOTER_LEN || image.subrange(
            image.len() - FOOTER_LEN,
            image.len() - FOOTER_LEN + 8,
        ) != MAGIC@,
{
}

// ---- the block map -------------------------------------------------------

/// The block map in the form that the code cache imports.
pub open spec fn import_map(blocks: Seq<BlockEntry>) -> Seq<(BlockKey, u32, u32)> {
    Seq::new(
        blocks.len(),
        |i: int|
            (
                BlockKey { bank: blocks[i].bank, addr: blocks[i].addr },
                blocks[i].offset,
                blocks[i].end as u32,
            ),
    )
}

/// The block map as the code cache exports it, in the form that is stored.
pub open spec fn export_map(map: Seq<(BlockKey, u32, u32)>) -> Seq<BlockEntry> {
    Seq::new(
        map.len(),
        |i: int|
            BlockEntry {
                bank: map[i].0.bank,
                addr: map[i].0.addr,
                offset: map[i].1,
                end: map[i].2 as u16,
            },
    )
}

pub fn to_import(blocks: &[BlockEntry]) -> (map: Vec<(BlockKey, u32, u32)>)
    ensures
        map@ == import_map(blocks@),
{
    let mut map: Vec<(BlockKey, u32, u32)> = Vec::new();
    for i in 0..blocks.len()
        invariant
            map@ == import_map(blocks@).take(i as int),
    {
        let b = blocks[i];
        map.push((BlockKey { bank: b.bank, addr: b.addr }, b.offset, b.end as u32));
        assert(map@ =~= import_map(blocks@).take(i + 1));
    }
    assert(import_map(blocks@).take(blocks@.len() as int) =~= import_map(blocks@));
    map
}

pub fn from_export(map: &[(BlockKey, u32, u32)]) -> (blocks: Vec<BlockEntry>)
    ensures
        blocks@ == export_map(map@),
{
    let mut blocks: Vec<BlockEntry> = Vec::new();
    for i in 0..map.len()
        invariant
            blocks@ == export_map(map@).take(i as int),
    {
        let (key, offset, end) = map[i];
        blocks.push(BlockEntry { bank: key.bank, addr: key.addr, offset, end: end as u16 });
        assert(blocks@ =~= export_map(map@).take(i + 1));
    }
    assert(export_map(map@).take(map@.len() as int) =~= export_map(map@));
    blocks
}

} // verus!
