//! Memory for translated code, and the cache of translated blocks that lives in
//! it.

use std::collections::BTreeMap;
use vstd::prelude::*;
use crate::bytes;
use crate::recomp::bus;
use crate::recomp::linking;
use crate::recomp::ordered;
use crate::recomp::ordered::keys_of;
use crate::recomp::program::Link;
use crate::recomp::translate;
use crate::recomp::translate::{build_trampoline, Block};
use crate::recomp::x64;

verus! {

/// A region that holds code. Its bytes stay where they are for as long as it
/// lives, so the program that owns it can make them executable.
pub struct ExecMem {
    data: Vec<u8>,
}

impl View for ExecMem {
    type V = Seq<u8>;

    closed spec fn view(&self) -> Seq<u8> {
        self.data@
    }
}

impl ExecMem {
    /// A region of zeroes. There is no region of no bytes.
    pub fn new(len: usize) -> (mem: Option<ExecMem>)
        ensures
            mem is None <==> len == 0,
            mem matches Some(m) ==> m@ == Seq::new(len as nat, |i: int| 0u8),
    {
        if len == 0 {
            return None;
        }
        let data: Vec<u8> = vec![0u8; len];
        assert(data@ =~= Seq::new(len as nat, |i: int| 0u8));
        Some(ExecMem { data })
    }

    pub fn capacity(&self) -> (n: usize)
        ensures
            n == self@.len(),
    {
        self.data.len()
    }

    /// Copy `bytes` to `offset`.
    pub fn write(&mut self, offset: usize, bytes: &[u8])
        requires
            offset + bytes@.len() <= old(self)@.len(),
        ensures
            final(self)@ == bytes::splice(old(self)@, offset as int, bytes@),
    {
        let mut i: usize = 0;
        let ghost before = self.data@;
        assert(self.data.len() == before.len());
        while i < bytes.len()
            invariant
                i <= bytes@.len(),
                offset + bytes@.len() <= before.len(),
                self.data@.len() == before.len(),
                before.len() <= usize::MAX,
                forall|k: int|
                    0 <= k < before.len() ==> #[trigger] self.data@[k] == (if offset <= k < offset
                        + i {
                        bytes@[k - offset]
                    } else {
                        before[k]
                    }),
            decreases bytes@.len() - i,
        {
            self.data[offset + i] = bytes[i];
            i += 1;
        }
        assert(self.data@ =~= bytes::splice(before, offset as int, bytes@));
    }

    pub fn read(&self, offset: usize, len: usize) -> (s: &[u8])
        requires
            offset + len <= self@.len(),
        ensures
            s@ == self@.subrange(offset as int, offset + len),
    {
        assert(offset + len <= self.data.len());
        vstd::slice::slice_subrange(self.data.as_slice(), offset, offset + len)
    }
}

/// Identifies a block. The same address holds different code depending on what
/// the mapper has selected, so the bank is part of the identity.
#[derive(Debug, Clone, Copy, PartialEq, Eq, Hash, PartialOrd, Ord, Structural)]
pub struct BlockKey {
    pub bank: u16,
    pub addr: u16,
}

impl BlockKey {
    /// The key as one number, in the order of the keys.
    #[verifier::allow_in_spec]
    pub fn number(self) -> u32
        returns
            (self.bank * 0x1_0000 + self.addr) as u32,
    {
        self.bank as u32 * 0x1_0000 + self.addr as u32
    }

    /// The key that a number stands for.
    #[verifier::allow_in_spec]
    pub fn from_number(n: u32) -> BlockKey
        returns
            (BlockKey { bank: (n / 0x1_0000) as u16, addr: (n % 0x1_0000) as u16 }),
    {
        BlockKey { bank: (n / 0x1_0000) as u16, addr: (n % 0x1_0000) as u16 }
    }
}

/// Keys and their numbers are one to one.
pub proof fn lemma_key_numbers(key: BlockKey, n: u32)
    ensures
        BlockKey::from_number(key.number()) == key,
        BlockKey::from_number(n).number() == n,
{
}

#[derive(Debug, Clone, Copy, PartialEq, Eq, Structural)]
pub struct BlockInfo {
    /// Byte offset of the block's entry point within the arena.
    pub offset: usize,
    pub len: usize,
    /// One past the last Game Boy address the block covers.
    pub end: u16,
}

/// A direct jump that is waiting for its destination to be translated.
#[derive(Debug, Clone, Copy, PartialEq, Eq, Structural)]
pub struct PendingLink {
    /// Absolute offset of the rel32 field in the arena.
    pub site: usize,
    pub to: BlockKey,
}

/// Default arena size. Translated code runs roughly 12-20 host bytes per Game
/// Boy instruction, so this covers a very large cartridge with room to spare.
pub const DEFAULT_ARENA: usize = 67_108_864;

/// What a code cache holds.
#[verifier::ext_equal]
pub struct Cached {
    /// The whole arena.
    pub bytes: Seq<u8>,
    /// How much of it is in use.
    pub used: nat,
    pub blocks: Map<BlockKey, BlockInfo>,
    /// The jumps that wait for a block, oldest first.
    pub waiting: Seq<PendingLink>,
    /// Where the trampoline is.
    pub trampoline: nat,
}

/// `n` rounded up to a multiple of 16.
pub open spec fn align16(n: int) -> int {
    (n + 15) / 16 * 16
}

/// The displacement from the rel32 field at `site` to `target`.
pub open spec fn displacement(site: int, target: int) -> u32 {
    bytes::bits32(target - (site + 4))
}

/// Whether a 32-bit branch whose rel32 field is at `site` can lead to `target`.
pub open spec fn spans(site: int, target: int) -> bool {
    -0x8000_0000 <= target - (site + 4) < 0x8000_0000
}

/// The waiting jumps that wait for something else than `key`.
pub open spec fn still_waiting(waiting: Seq<PendingLink>, key: BlockKey) -> Seq<PendingLink>
    decreases waiting.len(),
{
    if waiting.len() == 0 {
        seq![]
    } else {
        let rest = still_waiting(waiting.drop_last(), key);
        if waiting.last().to == key {
            rest
        } else {
            rest.push(waiting.last())
        }
    }
}

/// Whether some byte of the block of `key` is in the 256-byte page. A block can run past
/// the end of the address space, and then it covers both ends.
pub open spec fn touches(key: BlockKey, info: BlockInfo, page: u8) -> bool {
    let last = (info.end - 1) % 0x1_0000;
    let begins = key.addr <= page * 256 + 255;
    let ends = last >= page * 256;
    if key.addr <= last {
        begins && ends
    } else {
        begins || ends
    }
}

/// The waiting jumps whose destination is outside the page.
pub open spec fn waiting_outside(waiting: Seq<PendingLink>, page: u8) -> Seq<PendingLink>
    decreases waiting.len(),
{
    if waiting.len() == 0 {
        seq![]
    } else {
        let rest = waiting_outside(waiting.drop_last(), page);
        if page * 256 <= waiting.last().to.addr <= page * 256 + 255 {
            rest
        } else {
            rest.push(waiting.last())
        }
    }
}

impl Cached {
    /// The arena with `code` put at the next aligned offset.
    pub open spec fn append(self, code: Seq<u8>) -> Cached {
        let at = align16(self.used as int);
        Cached {
            bytes: bytes::splice(self.bytes, at, code),
            used: (at + code.len()) as nat,
            ..self
        }
    }

    /// Point the rel32 at `site` to `target`.
    pub open spec fn patch(self, site: int, target: int) -> Cached {
        Cached {
            bytes: bytes::splice(self.bytes, site, bytes::le32(displacement(site, target))),
            ..self
        }
    }

    /// Resolve one jump from a block that has just been installed, or let it
    /// wait.
    pub open spec fn resolve(self, site: int, to: BlockKey) -> Cached {
        if self.blocks.contains_key(to) {
            self.patch(site, self.blocks[to].offset as int)
        } else {
            Cached {
                waiting: self.waiting.push(PendingLink { site: site as usize, to }),
                ..self
            }
        }
    }

    /// Resolve the jumps out of a block at `offset` in `bank`.
    pub open spec fn resolve_all(self, links: Seq<Link>, offset: int, bank: u16) -> Cached
        decreases links.len(),
    {
        if links.len() == 0 {
            self
        } else {
            let link = links.last();
            self.resolve_all(links.drop_last(), offset, bank).resolve(
                offset + link.site,
                BlockKey { bank, addr: link.target },
            )
        }
    }

    /// Point the jumps of `waiting` that wait for `key` at `offset`.
    pub open spec fn connect(self, waiting: Seq<PendingLink>, key: BlockKey, offset: int) -> Cached
        decreases waiting.len(),
    {
        if waiting.len() == 0 {
            self
        } else {
            let rest = self.connect(waiting.drop_last(), key, offset);
            if waiting.last().to == key {
                rest.patch(waiting.last().site as int, offset)
            } else {
                rest
            }
        }
    }

    /// Where a jump to `to` leads once the block at `key` is installed, if it does not have
    /// to wait.
    pub open spec fn aim(self, key: BlockKey, to: BlockKey) -> Option<int> {
        if to == key {
            Some(self.next_offset())
        } else if self.blocks.contains_key(to) {
            Some(self.blocks[to].offset as int)
        } else {
            None
        }
    }

    /// There is room for a block with `len` bytes of code, and a 32-bit branch spans every
    /// jump that installing it resolves: its own, and those that wait for it.
    pub open spec fn fits(self, key: BlockKey, len: int, links: Seq<Link>) -> bool {
        let at = self.next_offset();
        &&& at + len <= self.bytes.len()
        &&& forall|i: int|
            0 <= i < links.len() ==> match self.aim(
                key,
                BlockKey { bank: key.bank, addr: (#[trigger] links[i]).target },
            ) {
                Some(target) => spans(at + links[i].site, target),
                None => true,
            }
        &&& forall|i: int|
            0 <= i < self.waiting.len() && (#[trigger] self.waiting[i]).to == key ==> spans(
                self.waiting[i].site as int,
                at,
            )
    }

    /// Where the next block goes.
    pub open spec fn next_offset(self) -> int {
        align16(self.used as int)
    }

    /// A freshly translated block installed, with links resolved in both
    /// directions.
    pub open spec fn install(
        self,
        key: BlockKey,
        code: Seq<u8>,
        links: Seq<Link>,
        end: u16,
    ) -> Cached {
        let at = self.next_offset();
        let info = BlockInfo { offset: at as usize, len: code.len() as usize, end };
        let s = self.append(code);
        let s = Cached { blocks: s.blocks.insert(key, info), ..s };
        let s = s.resolve_all(links, at, key.bank);
        let s = s.connect(s.waiting, key, at);
        Cached { waiting: still_waiting(s.waiting, key), ..s }
    }

    pub open spec fn invalidate(self, page: u8) -> Cached {
        Cached {
            blocks: Map::new(
                |k: BlockKey| self.blocks.contains_key(k) && !touches(k, self.blocks[k], page),
                |k: BlockKey| self.blocks[k],
            ),
            waiting: waiting_outside(self.waiting, page),
            ..self
        }
    }

    /// Blocks put in place by their offsets, the later of two for one key
    /// winning.
    pub open spec fn import_blocks(self, map: Seq<(BlockKey, u32, u32)>) -> Cached
        decreases map.len(),
    {
        if map.len() == 0 {
            self
        } else {
            let (key, offset, end) = map.last();
            let rest = self.import_blocks(map.drop_last());
            Cached {
                blocks: rest.blocks.insert(
                    key,
                    BlockInfo {
                        offset: offset as usize,
                        len: 0,
                        end: (end % 0x1_0000) as u16,
                    },
                ),
                ..rest
            }
        }
    }

    pub open spec fn import(self, blob: Seq<u8>, map: Seq<(BlockKey, u32, u32)>) -> Cached {
        Cached {
            bytes: bytes::splice(self.bytes, 0, blob),
            used: blob.len(),
            ..self
        }.import_blocks(map)
    }

    /// Whether every block lies in the first `len` bytes of the arena.
    pub open spec fn inside(self, len: nat) -> bool {
        forall|k: BlockKey|
            #[trigger] self.blocks.contains_key(k) ==> self.blocks[k].offset <= len
    }

    /// Everything lies inside the arena, and every block in the part that is in use.
    pub open spec fn wf(self) -> bool {
        &&& self.used <= self.bytes.len() <= usize::MAX
        &&& forall|k: BlockKey|
            #[trigger] self.blocks.contains_key(k) ==> self.blocks[k].offset <= self.used
        &&& forall|i: int|
            0 <= i < self.waiting.len() ==> #[trigger] self.waiting[i].site + 4 <= self.bytes.len()
    }
}

/// An exported block map: every block once, in the order of the keys.
pub open spec fn is_block_map(
    map: Seq<(BlockKey, u32, u32)>,
    blocks: Map<BlockKey, BlockInfo>,
) -> bool {
    &&& forall|i: int, j: int| 0 <= i < j < map.len() ==> map[i].0.number() < map[j].0.number()
    &&& forall|i: int|
        0 <= i < map.len() ==> {
            let (key, offset, end) = #[trigger] map[i];
            &&& blocks.contains_key(key)
            &&& offset == bus::wrap32(blocks[key].offset as int)
            &&& end == blocks[key].end
        }
    &&& forall|k: BlockKey| #[trigger]
        blocks.contains_key(k) ==> exists|i: int| 0 <= i < map.len() && #[trigger] map[i].0 == k
}

pub struct CodeCache {
    arena: ExecMem,
    used: usize,
    blocks: BTreeMap<u32, BlockInfo>,
    unresolved: Vec<PendingLink>,
    trampoline: usize,
}

impl View for CodeCache {
    type V = Cached;

    closed spec fn view(&self) -> Cached {
        Cached {
            bytes: self.arena@,
            used: self.used as nat,
            blocks: by_key(self.blocks@),
            waiting: self.unresolved@,
            trampoline: self.trampoline as nat,
        }
    }
}

/// A map by number as a map by key.
spec fn by_key(m: Map<u32, BlockInfo>) -> Map<BlockKey, BlockInfo> {
    Map::new(|k: BlockKey| m.contains_key(k.number()), |k: BlockKey| m[k.number()])
}

proof fn lemma_by_key_insert(m: Map<u32, BlockInfo>, key: BlockKey, info: BlockInfo)
    ensures
        by_key(m.insert(key.number(), info)) == by_key(m).insert(key, info),
{
    assert forall|k: BlockKey| k.number() == key.number() implies k == key by {
        lemma_key_numbers(k, 0);
        lemma_key_numbers(key, 0);
    }
    assert(by_key(m.insert(key.number(), info)) =~= by_key(m).insert(key, info));
}

/// The arena of a new cache.
pub open spec fn empty_cache(arena_bytes: nat) -> Cached {
    let code = x64::encode_all(translate::trampoline_ops());
    Cached {
        bytes: bytes::splice(Seq::new(arena_bytes, |i: int| 0u8), 0, code),
        used: code.len(),
        blocks: Map::empty(),
        waiting: seq![],
        trampoline: 0,
    }
}

impl CodeCache {
    /// A cache that holds the trampoline and nothing else. There is none without
    /// an arena, and the arena has room for the trampoline.
    pub fn new(arena_bytes: usize) -> (cache: Option<CodeCache>)
        requires
            arena_bytes == 0 || x64::encode_all(translate::trampoline_ops()).len() <= arena_bytes,
        ensures
            cache is None <==> arena_bytes == 0,
            cache matches Some(c) ==> c@ == empty_cache(arena_bytes as nat) && c@.wf(),
    {
        let arena = match ExecMem::new(arena_bytes) {
            Some(arena) => arena,
            None => return None,
        };
        let mut cache = CodeCache {
            arena,
            used: 0,
            blocks: BTreeMap::new(),
            unresolved: Vec::new(),
            trampoline: 0,
        };
        let tramp = build_trampoline();
        assert(cache@.blocks =~= Map::empty());
        cache.trampoline = cache.append(&tramp);
        assert(cache@ =~= empty_cache(arena_bytes as nat));
        Some(cache)
    }

    /// Put `code` at the next aligned offset.
    fn append(&mut self, code: &Vec<u8>) -> (offset: usize)
        requires
            old(self)@.wf(),
            old(self)@.next_offset() + code@.len() <= old(self)@.bytes.len(),
        ensures
            offset == old(self)@.next_offset(),
            final(self)@ == old(self)@.append(code@),
    {
        // Keep every block 16-byte aligned; branch targets like it and it makes
        // the arena easier to read in a debugger.
        let extra: usize = self.used % 16;
        let offset: usize = if extra == 0 {
            self.used
        } else {
            self.used + (16 - extra)
        };
        assert(offset == align16(self.used as int));
        self.arena.write(offset, code.as_slice());
        assert(offset + code@.len() <= self.arena@.len());
        self.used = offset + code.len();
        offset
    }

    pub fn used(&self) -> (n: usize)
        ensures
            n == self@.used,
    {
        self.used
    }

    pub fn block_count(&self) -> (n: usize)
        ensures
            n == self@.blocks.dom().len(),
    {
        proof {
            broadcast use ordered::group_numbers;

            lemma_count(self.blocks@.dom());
            assert(self@.blocks.dom() =~= keys_in(self.blocks@.dom()));
        }
        broadcast use ordered::group_numbers;

        self.blocks.len()
    }

    pub fn capacity(&self) -> (n: usize)
        ensures
            n == self@.bytes.len(),
    {
        self.arena.capacity()
    }

    /// Offset of the trampoline in the arena.
    pub fn trampoline(&self) -> (offset: usize)
        ensures
            offset == self@.trampoline,
    {
        self.trampoline
    }

    /// The arena, for the program that makes it executable.
    pub fn arena(&self) -> (bytes: &[u8])
        ensures
            bytes@ == self@.bytes,
    {
        let n = self.arena.capacity();
        assert(self.arena@.subrange(0, n as int) =~= self.arena@);
        self.arena.read(0, n)
    }

    pub fn lookup(&self, key: BlockKey) -> (info: Option<BlockInfo>)
        ensures
            info == (if self@.blocks.contains_key(key) {
                Some(self@.blocks[key])
            } else {
                None
            }),
    {
        broadcast use ordered::group_numbers;

        match self.blocks.get(&key.number()) {
            Some(info) => Some(*info),
            None => None,
        }
    }

    /// Point the rel32 at `site` to `target_offset`.
    fn patch(&mut self, site: usize, target_offset: usize)
        requires
            site + 4 <= old(self)@.bytes.len() <= usize::MAX,
            target_offset <= old(self)@.bytes.len(),
            spans(site as int, target_offset as int),
        ensures
            final(self)@ == old(self)@.patch(site as int, target_offset as int),
    {
        let from: usize = site + 4;
        let rel: u32 = if target_offset >= from {
            (target_offset - from) as u32
        } else {
            0u32.wrapping_sub((from - target_offset) as u32)
        };
        assert(rel == displacement(site as int, target_offset as int));
        let mut field: Vec<u8> = Vec::new();
        bytes::push_le32(&mut field, rel);
        assert(field@ =~= bytes::le32(rel));
        self.arena.write(site, field.as_slice());
    }

    fn insert(&mut self, key: BlockKey, info: BlockInfo)
        ensures
            final(self)@ == (Cached {
                blocks: old(self)@.blocks.insert(key, info),
                ..old(self)@
            }),
    {
        broadcast use ordered::group_numbers;

        proof {
            lemma_by_key_insert(self.blocks@, key, info);
        }
        self.blocks.insert(key.number(), info);
    }

    /// Whether `block` can be installed under `key`.
    pub fn has_room(&self, key: BlockKey, block: &Block) -> (yes: bool)
        requires
            self@.wf(),
            forall|i: int|
                0 <= i < block.links@.len() ==> #[trigger] block.links@[i].site + 4
                    <= block.code@.len(),
        ensures
            yes == self@.fits(key, block.code@.len() as int, block.links@),
    {
        let capacity: usize = self.arena.capacity();
        let extra: usize = self.used % 16;
        let gap: usize = if extra == 0 {
            0
        } else {
            16 - extra
        };
        assert(self.used + gap == align16(self.used as int));
        if capacity - self.used < gap || capacity - self.used - gap < block.code.len() {
            return false;
        }
        let offset: usize = self.used + gap;
        for i in 0..block.links.len()
            invariant
                self@.wf(),
                offset == self@.next_offset(),
                offset + block.code@.len() <= self@.bytes.len(),
                forall|j: int|
                    0 <= j < block.links@.len() ==> #[trigger] block.links@[j].site + 4
                        <= block.code@.len(),
                forall|j: int|
                    0 <= j < i ==> match self@.aim(
                        key,
                        BlockKey { bank: key.bank, addr: (#[trigger] block.links@[j]).target },
                    ) {
                        Some(target) => spans(offset + block.links@[j].site, target),
                        None => true,
                    },
        {
            let link = block.links[i];
            assert(block.links@[i as int] == link);
            let to = BlockKey { bank: key.bank, addr: link.target };
            let target: Option<usize> = if to == key {
                Some(offset)
            } else {
                match self.lookup(to) {
                    Some(info) => Some(info.offset),
                    None => None,
                }
            };
            if let Some(target) = target {
                if !branch_spans(offset + link.site, target) {
                    return false;
                }
            }
        }
        for i in 0..self.unresolved.len()
            invariant
                self@.wf(),
                offset == self@.next_offset(),
                forall|j: int|
                    0 <= j < i && (#[trigger] self@.waiting[j]).to == key ==> spans(
                        self@.waiting[j].site as int,
                        offset as int,
                    ),
        {
            let link = self.unresolved[i];
            assert(self@.waiting[i as int] == link);
            if link.to == key && !branch_spans(link.site, offset) {
                return false;
            }
        }
        true
    }

    /// Install a freshly translated block and resolve links in both directions.
    pub fn install(&mut self, key: BlockKey, block: Block) -> (info: BlockInfo)
        requires
            old(self)@.wf(),
            old(self)@.fits(key, block.code@.len() as int, block.links@),
            forall|i: int|
                0 <= i < block.links@.len() ==> #[trigger] block.links@[i].site + 4
                    <= block.code@.len(),
        ensures
            info == (BlockInfo {
                offset: old(self)@.next_offset() as usize,
                len: block.code@.len() as usize,
                end: block.end,
            }),
            final(self)@ == old(self)@.install(key, block.code@, block.links@, block.end),
            final(self)@.wf(),
    {
        let ghost s0 = self@;
        let ghost at = s0.next_offset();
        let offset = self.append(&block.code);
        let info = BlockInfo { offset, len: block.code.len(), end: block.end };
        assert(bytes::splice(s0.bytes, at, block.code@).len() == s0.bytes.len());
        self.insert(key, info);
        let ghost s1 = self@;

        let ghost links = block.links@;
        assert(links.take(0) =~= seq![]);
        assert forall|j: int| 0 <= j < links.len() implies {
            let to = BlockKey { bank: key.bank, addr: (#[trigger] links[j]).target };
            s1.blocks.contains_key(to) ==> spans(at + links[j].site, s1.blocks[to].offset as int)
        } by {
            let to = BlockKey { bank: key.bank, addr: links[j].target };
            assert(s0.aim(key, to) is Some <==> s1.blocks.contains_key(to));
        }
        let mut i: usize = 0;
        while i < block.links.len()
            invariant
                i <= links.len(),
                links == block.links@,
                offset == at,
                at + block.code@.len() <= s1.bytes.len() <= usize::MAX,
                s1.wf(),
                forall|j: int|
                    0 <= j < links.len() ==> {
                        let to = BlockKey { bank: key.bank, addr: (#[trigger] links[j]).target };
                        s1.blocks.contains_key(to) ==> spans(
                            at + links[j].site,
                            s1.blocks[to].offset as int,
                        )
                    },
                forall|w: int|
                    0 <= w < self@.waiting.len() && (#[trigger] self@.waiting[w]).to == key
                        ==> spans(self@.waiting[w].site as int, at),
                s1.blocks.contains_key(key),
                forall|j: int|
                    0 <= j < links.len() ==> #[trigger] links[j].site + 4 <= block.code@.len(),
                self@ == s1.resolve_all(links.take(i as int), at, key.bank),
                self@.wf(),
                self@.bytes.len() == s1.bytes.len(),
                self@.blocks == s1.blocks,
            decreases links.len() - i,
        {
            let link = block.links[i];
            assert(links[i as int] == link);
            let site: usize = offset + link.site;
            let target = BlockKey { bank: key.bank, addr: link.target };
            let ghost before = self@;
            match self.lookup(target) {
                Some(dest) => self.patch(site, dest.offset),
                None => self.unresolved.push(PendingLink { site, to: target }),
            }
            proof {
                assert(links.take(i + 1).drop_last() =~= links.take(i as int));
                assert(links.take(i + 1).last() == link);
                assert(self@ == before.resolve(at + link.site, target));
            }
            i += 1;
        }
        assert(links.take(links.len() as int) =~= links);
        let ghost s2 = self@;

        // Anything that was waiting on this block can now jump straight to it.
        let mut pending: Vec<PendingLink> = Vec::new();
        std::mem::swap(&mut pending, &mut self.unresolved);
        let mut waiting: Vec<PendingLink> = Vec::new();
        let ghost all = pending@;
        assert(all == s2.waiting);
        assert(all.take(0) =~= seq![]);
        let ghost empty = Cached { waiting: seq![], ..s2 };
        assert(self@ =~= empty);
        let mut j: usize = 0;
        while j < pending.len()
            invariant
                j <= all.len(),
                all == pending@,
                all == s2.waiting,
                s2.wf(),
                forall|w: int|
                    0 <= w < s2.waiting.len() && (#[trigger] s2.waiting[w]).to == key ==> spans(
                        s2.waiting[w].site as int,
                        at,
                    ),
                offset == at,
                at <= s2.bytes.len(),
                empty == (Cached { waiting: seq![], ..s2 }),
                self@ == empty.connect(all.take(j as int), key, at),
                self@.bytes.len() == s2.bytes.len(),
                self@.blocks == s2.blocks,
                self@.used == s2.used,
                waiting@ == still_waiting(all.take(j as int), key),
                forall|i: int|
                    0 <= i < waiting@.len() ==> #[trigger] waiting@[i].site + 4 <= s2.bytes.len(),
            decreases all.len() - j,
        {
            let link = pending[j];
            assert(s2.waiting[j as int].site + 4 <= s2.bytes.len());
            proof {
                assert(all.take(j + 1).drop_last() =~= all.take(j as int));
                assert(all.take(j + 1).last() == link);
            }
            if link.to == key {
                self.patch(link.site, offset);
            } else {
                waiting.push(link);
            }
            j += 1;
        }
        proof {
            assert(all.take(all.len() as int) =~= all);
            lemma_connect_waiting(s2, all, key, at);
        }
        self.unresolved = waiting;
        assert(self@ =~= s0.install(key, block.code@, block.links@, block.end));
        info
    }

    /// Forget every block whose code lives in a 256-byte page that just changed.
    /// The arena is not reclaimed; the entries simply stop being reachable, and
    /// nothing links directly into RAM code, so no stale jump can survive.
    pub fn invalidate_page(&mut self, page: u8)
        ensures
            final(self)@ == old(self)@.invalidate(page),
            old(self)@.wf() ==> final(self)@.wf(),
    {
        broadcast use ordered::group_numbers;

        let ghost s0 = self@;
        let lo: u16 = page as u16 * 256;
        let hi: u16 = lo + 255;
        let numbers = keys_of(&self.blocks);
        let ghost first = self.blocks@;
        let mut i: usize = 0;
        while i < numbers.len()
            invariant
                i <= numbers@.len(),
                lo == page * 256,
                hi == lo + 255,
                numbers@.to_set() == first.dom(),
                ordered::increasing(numbers@),
                self.arena@ == s0.bytes,
                self.used == s0.used,
                self.trampoline == s0.trampoline,
                self.unresolved@ == s0.waiting,
                forall|n: u32|
                    #[trigger] self.blocks@.contains_key(n) <==> first.contains_key(n) && !(numbers@.take(
                        i as int,
                    ).contains(n) && touches(BlockKey::from_number(n), first[n], page)),
                forall|n: u32| self.blocks@.contains_key(n) ==> #[trigger] self.blocks@[n]
                    == first[n],
            decreases numbers@.len() - i,
        {
            let n: u32 = numbers[i];
            let ghost before = self.blocks@;
            proof {
                assert(numbers@.to_set().contains(n));
                assert(!numbers@.take(i as int).contains(n));
                assert(before.contains_key(n));
                assert(numbers@.take(i + 1) =~= numbers@.take(i as int).push(n));
                assert forall|x: u32| #[trigger] numbers@.take(i + 1).contains(x) <==> numbers@.take(
                    i as int,
                ).contains(x) || x == n by {
                    if numbers@.take(i as int).contains(x) {
                        let w = choose|w: int| 0 <= w < i && numbers@.take(i as int)[w] == x;
                        assert(numbers@.take(i + 1)[w] == x);
                    }
                    assert(numbers@.take(i + 1)[i as int] == n);
                }
            }
            let key = BlockKey::from_number(n);
            let drop: bool = match self.blocks.get(&n) {
                Some(info) => {
                    let last: u16 = info.end.wrapping_sub(1);
                    let begins = key.addr <= hi;
                    let ends = last >= lo;
                    if key.addr <= last {
                        begins && ends
                    } else {
                        begins || ends
                    }
                },
                None => false,
            };
            if drop {
                self.blocks.remove(&n);
            }
            i += 1;
        }
        proof {
            let want = s0.invalidate(page).blocks;
            assert(numbers@.take(numbers@.len() as int) =~= numbers@);
            assert forall|k: BlockKey| #[trigger] by_key(self.blocks@).contains_key(k)
                <==> want.contains_key(k) by {
                lemma_key_numbers(k, 0);
                let n = k.number();
                assert(by_key(first).contains_key(k) <==> first.contains_key(n));
                assert(first.contains_key(n) ==> numbers@.to_set().contains(n));
            }
            assert(by_key(self.blocks@) =~= want);
        }
        let mut kept: Vec<PendingLink> = Vec::new();
        let ghost all = self.unresolved@;
        assert(all.take(0) =~= seq![]);
        let mut j: usize = 0;
        while j < self.unresolved.len()
            invariant
                j <= all.len(),
                all == self.unresolved@,
                lo == page * 256,
                hi == lo + 255,
                kept@ == waiting_outside(all.take(j as int), page),
                s0.wf() ==> forall|i: int|
                    0 <= i < kept@.len() ==> #[trigger] kept@[i].site + 4 <= s0.bytes.len(),
                all == s0.waiting,
            decreases all.len() - j,
        {
            let link = self.unresolved[j];
            proof {
                assert(all.take(j + 1).drop_last() =~= all.take(j as int));
                assert(all.take(j + 1).last() == link);
                assert(s0.waiting[j as int] == link);
            }
            if !(link.to.addr >= lo && link.to.addr <= hi) {
                kept.push(link);
            }
            j += 1;
        }
        assert(all.take(all.len() as int) =~= all);
        self.unresolved = kept;
        assert(self@ =~= s0.invalidate(page));
    }

    /// The arena contents and block map, for stamping into an executable.
    ///
    /// Translated code contains no absolute addresses, so the bytes are valid at
    /// whatever address the loader later puts them.
    pub fn export(&self) -> (out: (Vec<u8>, Vec<(BlockKey, u32, u32)>))
        requires
            self@.wf(),
        ensures
            out.0@ == self@.bytes.take(self@.used as int),
            is_block_map(out.1@, self@.blocks),
            forall|i: int| 0 <= i < out.1@.len() ==> (#[trigger] out.1@[i]).1 <= out.0@.len(),
    {
        broadcast use ordered::group_numbers;

        let numbers = keys_of(&self.blocks);
        let mut map: Vec<(BlockKey, u32, u32)> = Vec::new();
        let mut i: usize = 0;
        while i < numbers.len()
            invariant
                i <= numbers@.len(),
                map@.len() == i,
                numbers@.to_set() == self.blocks@.dom(),
                forall|j: int|
                    0 <= j < i ==> {
                        let (key, offset, end) = #[trigger] map@[j];
                        &&& key.number() == numbers@[j]
                        &&& offset == bus::wrap32(self.blocks@[numbers@[j]].offset as int)
                        &&& end == self.blocks@[numbers@[j]].end
                    },
            decreases numbers@.len() - i,
        {
            let n: u32 = numbers[i];
            assert(numbers@.to_set().contains(n));
            let key = BlockKey::from_number(n);
            match self.blocks.get(&n) {
                Some(info) => {
                    proof {
                        lemma_key_numbers(key, n);
                    }
                    let offset: u32 = (info.offset as u64 % 0x1_0000_0000) as u32;
                    map.push((key, offset, info.end as u32));
                },
                None => {
                    assert(false);
                },
            }
            i += 1;
        }
        proof {
            let blocks = self@.blocks;
            assert forall|j: int| 0 <= j < map@.len() implies {
                let (key, offset, end) = #[trigger] map@[j];
                &&& blocks.contains_key(key)
                &&& offset == bus::wrap32(blocks[key].offset as int)
                &&& end == blocks[key].end
            } by {
                assert(numbers@.to_set().contains(numbers@[j]));
            }
            assert forall|k: BlockKey| #[trigger] blocks.contains_key(k) implies exists|i: int|
                0 <= i < map@.len() && #[trigger] map@[i].0 == k by {
                assert(numbers@.to_set().contains(k.number()));
                let i = choose|i: int| 0 <= i < numbers@.len() && numbers@[i] == k.number();
                lemma_key_numbers(k, 0);
                lemma_key_numbers(map@[i].0, 0);
                assert(map@[i].0 == k);
            }
        }
        let code = vstd::slice::slice_to_vec(self.arena.read(0, self.used));
        assert(code@ =~= self@.bytes.take(self@.used as int));
        (code, map)
    }

    /// Reinstate an exported arena. `blob` must have come from `export` on a
    /// cache built for the same cartridge.
    pub fn import(&mut self, blob: &[u8], map: &[(BlockKey, u32, u32)])
        requires
            old(self)@.wf(),
            blob@.len() <= old(self)@.bytes.len(),
            forall|i: int| 0 <= i < map@.len() ==> (#[trigger] map@[i]).1 <= blob@.len(),
        ensures
            final(self)@ == old(self)@.import(blob@, map@),
            old(self)@.inside(blob@.len()) ==> final(self)@.wf(),
    {
        let ghost s0 = self@;
        self.arena.write(0, blob);
        assert(self.arena@.len() == s0.bytes.len());
        self.used = blob.len();
        let ghost s1 = self@;
        proof {
            assert(s1.blocks == s0.blocks && s1.waiting == s0.waiting);
            assert(s1.bytes.len() == s0.bytes.len());
            assert(s1.used == blob@.len());
        }
        let mut i: usize = 0;
        assert(map@.take(0) =~= seq![]);
        while i < map.len()
            invariant
                i <= map@.len(),
                s0.inside(blob@.len()) ==> self@.wf(),
                self@ == s1.import_blocks(map@.take(i as int)),
                self@.bytes == s1.bytes,
                self@.used == blob@.len(),
                blob@.len() <= s1.bytes.len(),
                forall|j: int| 0 <= j < map@.len() ==> (#[trigger] map@[j]).1 <= blob@.len(),
            decreases map@.len() - i,
        {
            let (key, offset, end) = map[i];
            proof {
                assert(map@.take(i + 1).drop_last() =~= map@.take(i as int));
                assert(map@.take(i + 1).last() == map@[i as int]);
            }
            self.insert(
                key,
                BlockInfo {
                    offset: offset as usize,
                    len: 0,
                    end: (end % 0x1_0000) as u16,
                },
            );
            i += 1;
        }
        assert(map@.take(map@.len() as int) =~= map@);
    }
}

/// Whether a 32-bit branch whose rel32 field is at `site` can lead to `target`.
fn branch_spans(site: usize, target: usize) -> (yes: bool)
    requires
        site + 4 <= usize::MAX,
    ensures
        yes == spans(site as int, target as int),
{
    let from: usize = site + 4;
    if target >= from {
        target - from < 0x8000_0000
    } else {
        from - target <= 0x8000_0000
    }
}

/// Connecting waiting jumps has nothing to do with which jumps wait.
proof fn lemma_connect_waiting(s: Cached, waiting: Seq<PendingLink>, key: BlockKey, offset: int)
    ensures
        ({
            let a = s.connect(waiting, key, offset);
            let b = Cached { waiting: seq![], ..s }.connect(waiting, key, offset);
            &&& a.bytes == b.bytes
            &&& a.blocks == b.blocks
            &&& a.used == b.used
            &&& a.trampoline == b.trampoline
            &&& a.waiting == s.waiting
            &&& b.waiting == Seq::<PendingLink>::empty()
        }),
    decreases waiting.len(),
{
    if waiting.len() > 0 {
        lemma_connect_waiting(s, waiting.drop_last(), key, offset);
    }
}

/// The keys that the numbers stand for.
pub open spec fn keys_in(numbers: Set<u32>) -> Set<BlockKey> {
    Set::new(|k: BlockKey| numbers.contains(k.number()))
}

/// As many keys as numbers.
pub proof fn lemma_count(numbers: Set<u32>)
    requires
        numbers.finite(),
    ensures
        keys_in(numbers).finite(),
        keys_in(numbers).len() == numbers.len(),
    decreases numbers.len(),
{
    if numbers.is_empty() {
        assert(keys_in(numbers) =~= Set::empty());
    } else {
        let n = numbers.choose();
        let key = BlockKey::from_number(n);
        lemma_key_numbers(key, n);
        lemma_count(numbers.remove(n));
        assert forall|k: BlockKey| k.number() == n implies k == key by {
            lemma_key_numbers(k, n);
        }
        assert(keys_in(numbers) =~= keys_in(numbers.remove(n)).insert(key));
        assert(!keys_in(numbers.remove(n)).contains(key));
    }
}

// ---- what linking guarantees ---------------------------------------------

/// The jump whose rel32 field is at `site` leads to `target`.
pub open spec fn aims(code: Seq<u8>, site: int, target: int) -> bool {
    code.subrange(site, site + 4) == bytes::le32(displacement(site, target))
}

/// The waiting jumps are in code that is in use, and no two of them overlap.
pub open spec fn sound(s: Cached) -> bool {
    &&& s.wf()
    &&& forall|i: int| 0 <= i < s.waiting.len() ==> #[trigger] s.waiting[i].site + 4 <= s.used
    &&& forall|i: int, j: int|
        0 <= i < s.waiting.len() && 0 <= j < s.waiting.len() && i != j ==> apart(
            #[trigger] s.waiting[i].site as int,
            #[trigger] s.waiting[j].site as int,
        )
}

/// Two rel32 fields that do not overlap.
pub open spec fn apart(a: int, b: int) -> bool {
    a + 4 <= b || b + 4 <= a
}

/// Writing one field leaves every other byte.
proof fn lemma_patch(s: Cached, site: int, target: int)
    requires
        0 <= site,
        site + 4 <= s.bytes.len(),
    ensures
        ({
            let n = s.patch(site, target);
            &&& n.bytes.len() == s.bytes.len()
            &&& aims(n.bytes, site, target)
            &&& forall|p: int|
                0 <= p < s.bytes.len() && !(site <= p < site + 4) ==> #[trigger] n.bytes[p]
                    == s.bytes[p]
        }),
{
    let n = s.patch(site, target);
    assert(n.bytes.subrange(site, site + 4) =~= bytes::le32(displacement(site, target)));
}

/// A field that no changed byte is in leads where it did.
proof fn lemma_aims_kept(a: Seq<u8>, b: Seq<u8>, site: int, target: int)
    requires
        0 <= site,
        site + 4 <= a.len(),
        a.len() == b.len(),
        forall|p: int| site <= p < site + 4 ==> #[trigger] a[p] == b[p],
        aims(a, site, target),
    ensures
        aims(b, site, target),
{
    assert(a.subrange(site, site + 4) =~= b.subrange(site, site + 4));
}

/// Whether the rel32 field at `site` is the same in both.
pub open spec fn same_field(a: Seq<u8>, b: Seq<u8>, site: int) -> bool {
    &&& a[site] == b[site]
    &&& a[site + 1] == b[site + 1]
    &&& a[site + 2] == b[site + 2]
    &&& a[site + 3] == b[site + 3]
}

/// Where one of the links of the block at `at` is.
pub open spec fn is_link_site(links: Seq<Link>, at: int, site: int) -> bool {
    exists|j: int| 0 <= j < links.len() && site == at + (#[trigger] links[j]).site
}

/// A byte of the block at `at` that is in one of its links.
pub open spec fn in_links(links: Seq<Link>, at: int, p: int) -> bool {
    exists|i: int|
        0 <= i < links.len() && at + (#[trigger] links[i]).site <= p < at + links[i].site + 4
}

/// The links are inside `len` bytes of code, and no two of them overlap.
pub open spec fn links_apart(ls: Seq<Link>, len: int) -> bool {
    &&& forall|i: int| 0 <= i < ls.len() ==> #[trigger] ls[i].site + 4 <= len
    &&& forall|i: int, j: int|
        0 <= i < ls.len() && 0 <= j < ls.len() && i != j ==> apart(
            #[trigger] ls[i].site as int,
            #[trigger] ls[j].site as int,
        )
}

proof fn lemma_resolve_all(s: Cached, links: Seq<Link>, at: int, bank: u16, len: int)
    requires
        sound(s),
        links_apart(links, len),
        0 <= at,
        at + len <= s.bytes.len(),
        forall|i: int| 0 <= i < s.waiting.len() ==> #[trigger] s.waiting[i].site + 4 <= at,
        s.used == at + len,
    ensures
        ({
            let n = s.resolve_all(links, at, bank);
            &&& sound(n)
            &&& n.blocks == s.blocks
            &&& n.used == s.used
            &&& n.trampoline == s.trampoline
            &&& n.bytes.len() == s.bytes.len()
            &&& s.waiting.len() <= n.waiting.len()
            &&& n.waiting.take(s.waiting.len() as int) == s.waiting
            &&& forall|i: int|
                s.waiting.len() <= i < n.waiting.len() ==> !s.blocks.contains_key(
                    (#[trigger] n.waiting[i]).to,
                ) && exists|j: int|
                    0 <= j < links.len() && n.waiting[i].site == at + (#[trigger] links[j]).site
            &&& forall|i: int|
                0 <= i < links.len() ==> {
                    let to = BlockKey { bank, addr: (#[trigger] links[i]).target };
                    let site = at + links[i].site;
                    if s.blocks.contains_key(to) {
                        aims(n.bytes, site, s.blocks[to].offset as int)
                    } else {
                        n.waiting.contains(PendingLink { site: site as usize, to })
                    }
                }
            &&& forall|i: int|
                0 <= i < links.len() && !s.blocks.contains_key(
                    BlockKey { bank, addr: (#[trigger] links[i]).target },
                ) ==> same_field(n.bytes, s.bytes, at + links[i].site)
            &&& forall|p: int|
                0 <= p < s.bytes.len() && !in_links(links, at, p) ==> #[trigger] n.bytes[p]
                    == s.bytes[p]
        }),
    decreases links.len(),
{
    if links.len() == 0 {
        assert(s.waiting.take(s.waiting.len() as int) =~= s.waiting);
    } else {
        let before = links.drop_last();
        let last = links.last();
        let k = links.len() - 1;
        assert forall|i: int| 0 <= i < before.len() implies before[i] == links[i] by {}
        assert(links[k] == last);
        assert(links_apart(before, len)) by {
            assert forall|i: int, j: int|
                0 <= i < before.len() && 0 <= j < before.len() && i != j implies apart(
                #[trigger] before[i].site as int,
                #[trigger] before[j].site as int,
            ) by {
                assert(apart(links[i].site as int, links[j].site as int));
            }
        }
        lemma_resolve_all(s, before, at, bank, len);
        let r = s.resolve_all(before, at, bank);
        let site = at + last.site;
        let to = BlockKey { bank, addr: last.target };
        let n = r.resolve(site, to);
        assert(n == s.resolve_all(links, at, bank));
        assert(links[k].site + 4 <= len);
        if s.blocks.contains_key(to) {
            lemma_patch(r, site, s.blocks[to].offset as int);
            assert forall|i: int| 0 <= i < before.len() implies {
                let to2 = BlockKey { bank, addr: (#[trigger] links[i]).target };
                let site2 = at + links[i].site;
                if s.blocks.contains_key(to2) {
                    aims(n.bytes, site2, s.blocks[to2].offset as int)
                } else {
                    n.waiting.contains(PendingLink { site: site2 as usize, to: to2 })
                }
            } by {
                let to2 = BlockKey { bank, addr: before[i].target };
                assert(apart(links[i].site as int, links[k].site as int));
                if s.blocks.contains_key(to2) {
                    lemma_aims_kept(
                        r.bytes,
                        n.bytes,
                        at + links[i].site,
                        s.blocks[to2].offset as int,
                    );
                }
            }
        } else {
            let pending = PendingLink { site: site as usize, to };
            assert(n.waiting == r.waiting.push(pending));
            assert(n.waiting.take(s.waiting.len() as int) =~= r.waiting.take(
                s.waiting.len() as int,
            ));
            assert(n.waiting[r.waiting.len() as int] == pending);
            assert forall|x: PendingLink| r.waiting.contains(x) implies n.waiting.contains(x) by {
                let w = choose|w: int| 0 <= w < r.waiting.len() && r.waiting[w] == x;
                assert(n.waiting[w] == x);
            }
            assert forall|i: int| 0 <= i < r.waiting.len() implies apart(
                (#[trigger] r.waiting[i]).site as int,
                site,
            ) by {
                if i < s.waiting.len() {
                    assert(r.waiting.take(s.waiting.len() as int)[i] == s.waiting[i]);
                    assert(s.waiting[i].site + 4 <= at);
                } else {
                    let j = choose|j: int|
                        0 <= j < before.len() && r.waiting[i].site == at + (
                        #[trigger] before[j]).site;
                    assert(apart(links[j].site as int, links[k].site as int));
                }
            }
            assert forall|i: int| 0 <= i < before.len() implies {
                let to2 = BlockKey { bank, addr: (#[trigger] links[i]).target };
                let site2 = at + links[i].site;
                if s.blocks.contains_key(to2) {
                    aims(n.bytes, site2, s.blocks[to2].offset as int)
                } else {
                    n.waiting.contains(PendingLink { site: site2 as usize, to: to2 })
                }
            } by {
                assert(before[i] == links[i]);
            }
            assert forall|i: int| s.waiting.len() <= i < n.waiting.len() implies !s.blocks.contains_key(
                (#[trigger] n.waiting[i]).to,
            ) && exists|j: int|
                0 <= j < links.len() && n.waiting[i].site == at + (#[trigger] links[j]).site by {
                if i < r.waiting.len() {
                    let j = choose|j: int|
                        0 <= j < before.len() && r.waiting[i].site == at + (
                        #[trigger] before[j]).site;
                    assert(links[j] == before[j]);
                }
            }
        }
        assert forall|p: int| 0 <= p < s.bytes.len() && !in_links(links, at, p) implies
            #[trigger] n.bytes[p] == s.bytes[p] by {
            assert(!in_links(before, at, p)) by {
                if in_links(before, at, p) {
                    let i = choose|i: int|
                        0 <= i < before.len() && at + (#[trigger] before[i]).site <= p < at
                            + before[i].site + 4;
                    assert(links[i] == before[i]);
                }
            }
            assert(!(site <= p < site + 4)) by {
                if site <= p < site + 4 {
                    assert(at + links[k].site <= p < at + links[k].site + 4);
                }
            }
        }
        assert forall|i: int| s.waiting.len() <= i < n.waiting.len() implies !s.blocks.contains_key(
            (#[trigger] n.waiting[i]).to,
        ) && exists|j: int|
            0 <= j < links.len() && n.waiting[i].site == at + (#[trigger] links[j]).site by {
            if i < r.waiting.len() {
                let j = choose|j: int|
                    0 <= j < before.len() && r.waiting[i].site == at + (#[trigger] before[j]).site;
                assert(links[j] == before[j]);
            }
        }
        assert forall|i: int|
            0 <= i < links.len() && !s.blocks.contains_key(
                BlockKey { bank, addr: (#[trigger] links[i]).target },
            ) implies same_field(n.bytes, s.bytes, at + links[i].site) by {
            assert(links[i].site + 4 <= len);
            if i < k {
                assert(before[i] == links[i]);
                assert(apart(links[i].site as int, links[k].site as int));
            } else {
                assert forall|p: int| site <= p < site + 4 implies r.bytes[p] == s.bytes[p] by {
                    if in_links(before, at, p) {
                        let j = choose|j: int|
                            0 <= j < before.len() && at + (#[trigger] before[j]).site <= p < at
                                + before[j].site + 4;
                        assert(links[j] == before[j]);
                        assert(apart(links[j].site as int, links[k].site as int));
                    }
                }
            }
        }
    }
}

/// A byte of a field that waits for `key`.
pub open spec fn waits_at(waiting: Seq<PendingLink>, key: BlockKey, p: int) -> bool {
    exists|i: int|
        0 <= i < waiting.len() && (#[trigger] waiting[i]).to == key && waiting[i].site <= p
            < waiting[i].site + 4
}

proof fn lemma_connect(s: Cached, waiting: Seq<PendingLink>, key: BlockKey, offset: int)
    requires
        forall|i: int|
            0 <= i < waiting.len() ==> #[trigger] waiting[i].site + 4 <= s.bytes.len(),
        forall|i: int, j: int|
            0 <= i < waiting.len() && 0 <= j < waiting.len() && i != j ==> apart(
                #[trigger] waiting[i].site as int,
                #[trigger] waiting[j].site as int,
            ),
    ensures
        ({
            let n = s.connect(waiting, key, offset);
            &&& n.blocks == s.blocks
            &&& n.used == s.used
            &&& n.waiting == s.waiting
            &&& n.trampoline == s.trampoline
            &&& n.bytes.len() == s.bytes.len()
            &&& forall|i: int|
                0 <= i < waiting.len() && (#[trigger] waiting[i]).to == key ==> aims(
                    n.bytes,
                    waiting[i].site as int,
                    offset,
                )
            &&& forall|p: int|
                0 <= p < s.bytes.len() && !waits_at(waiting, key, p) ==> #[trigger] n.bytes[p]
                    == s.bytes[p]
        }),
    decreases waiting.len(),
{
    if waiting.len() > 0 {
        let before = waiting.drop_last();
        let last = waiting.last();
        let k = waiting.len() - 1;
        assert forall|i: int| 0 <= i < before.len() implies before[i] == waiting[i] by {}
        assert(waiting[k] == last);
        lemma_connect(s, before, key, offset);
        let r = s.connect(before, key, offset);
        let n = s.connect(waiting, key, offset);
        if last.to == key {
            assert(waiting[k].site + 4 <= s.bytes.len());
            lemma_patch(r, last.site as int, offset);
            assert forall|i: int| 0 <= i < waiting.len() && (#[trigger] waiting[i]).to
                == key implies aims(n.bytes, waiting[i].site as int, offset) by {
                if i < k {
                    assert(before[i] == waiting[i]);
                    assert(apart(waiting[i].site as int, waiting[k].site as int));
                    lemma_aims_kept(r.bytes, n.bytes, waiting[i].site as int, offset);
                }
            }
        }
        assert forall|p: int| 0 <= p < s.bytes.len() && !waits_at(waiting, key, p) implies
            #[trigger] n.bytes[p] == s.bytes[p] by {
            assert(!waits_at(before, key, p)) by {
                if waits_at(before, key, p) {
                    let i = choose|i: int|
                        0 <= i < before.len() && (#[trigger] before[i]).to == key
                            && before[i].site <= p < before[i].site + 4;
                    assert(waiting[i] == before[i]);
                }
            }
            if last.to == key {
                assert(!(last.site <= p < last.site + 4)) by {
                    if last.site <= p < last.site + 4 {
                        assert(waiting[k].to == key);
                    }
                }
            }
        }
    }
}

proof fn lemma_still_waiting(waiting: Seq<PendingLink>, key: BlockKey)
    ensures
        ({
            let rest = still_waiting(waiting, key);
            &&& forall|x: PendingLink|
                #[trigger] rest.contains(x) <==> waiting.contains(x) && x.to != key
            &&& rest.len() <= waiting.len()
            &&& (forall|i: int, j: int|
                0 <= i < waiting.len() && 0 <= j < waiting.len() && i != j ==> apart(
                    #[trigger] waiting[i].site as int,
                    #[trigger] waiting[j].site as int,
                )) ==> (forall|i: int, j: int|
                0 <= i < rest.len() && 0 <= j < rest.len() && i != j ==> apart(
                    #[trigger] rest[i].site as int,
                    #[trigger] rest[j].site as int,
                ))
        }),
    decreases waiting.len(),
{
    let rest = still_waiting(waiting, key);
    if waiting.len() > 0 {
        let before = waiting.drop_last();
        let last = waiting.last();
        let k = waiting.len() - 1;
        lemma_still_waiting(before, key);
        let r = still_waiting(before, key);
        assert forall|x: PendingLink| waiting.contains(x) <==> #[trigger] before.contains(x) || x
            == last by {
            if waiting.contains(x) {
                let w = choose|w: int| 0 <= w < waiting.len() && waiting[w] == x;
                if w < k {
                    assert(before[w] == x);
                }
            }
            if before.contains(x) {
                let w = choose|w: int| 0 <= w < before.len() && before[w] == x;
                assert(waiting[w] == x);
            }
            assert(waiting[k] == last);
        }
        assert forall|x: PendingLink| #[trigger] rest.contains(x) <==> waiting.contains(x) && x.to
            != key by {
            assert(before.contains(x) || !before.contains(x));
            if last.to != key {
                assert(rest == r.push(last));
                assert(rest[r.len() as int] == last);
                if r.contains(x) {
                    let w = choose|w: int| 0 <= w < r.len() && r[w] == x;
                    assert(rest[w] == x);
                }
                if rest.contains(x) {
                    let w = choose|w: int| 0 <= w < rest.len() && rest[w] == x;
                    if w < r.len() {
                        assert(r[w] == x);
                    }
                }
            }
        }
        if (forall|i: int, j: int|
            0 <= i < waiting.len() && 0 <= j < waiting.len() && i != j ==> apart(
                #[trigger] waiting[i].site as int,
                #[trigger] waiting[j].site as int,
            )) {
            assert forall|i: int, j: int|
                0 <= i < before.len() && 0 <= j < before.len() && i != j implies apart(
                #[trigger] before[i].site as int,
                #[trigger] before[j].site as int,
            ) by {
                assert(waiting[i] == before[i] && waiting[j] == before[j]);
            }
            assert forall|i: int, j: int|
                0 <= i < rest.len() && 0 <= j < rest.len() && i != j implies apart(
                #[trigger] rest[i].site as int,
                #[trigger] rest[j].site as int,
            ) by {
                if last.to != key {
                    if i < r.len() && j < r.len() {
                        assert(r[i] == rest[i] && r[j] == rest[j]);
                    } else {
                        let o = if i < r.len() {
                            i
                        } else {
                            j
                        };
                        assert(r[o] == rest[o]);
                        assert(r.contains(r[o]));
                        assert(before.contains(r[o]));
                        let w = choose|w: int| 0 <= w < before.len() && before[w] == r[o];
                        assert(waiting[w] == before[w] && waiting[k] == last);
                        assert(apart(waiting[w].site as int, waiting[k].site as int));
                    }
                }
            }
        }
    }
}

/// What installing a block guarantees. Every jump out of it leads straight to
/// its destination if that is in the cache, and otherwise waits, still falling
/// through to the dispatch; every jump that waited for the block leads to it now;
/// no other byte of any block has changed; and no jump waits for a block that is
/// there.
pub proof fn law_install(s: Cached, key: BlockKey, code: Seq<u8>, links: Seq<Link>, end: u16)
    requires
        sound(s),
        s.fits(key, code.len() as int, links),
        links_apart(links, code.len() as int),
        forall|i: int|
            0 <= i < s.waiting.len() ==> !s.blocks.contains_key((#[trigger] s.waiting[i]).to),
    ensures
        ({
            let n = s.install(key, code, links, end);
            let at = s.next_offset();
            &&& sound(n)
            &&& n.used == at + code.len()
            &&& n.bytes.len() == s.bytes.len()
            &&& n.blocks == s.blocks.insert(
                key,
                BlockInfo { offset: at as usize, len: code.len() as usize, end },
            )
            &&& forall|i: int|
                0 <= i < links.len() ==> {
                    let to = BlockKey { bank: key.bank, addr: (#[trigger] links[i]).target };
                    let site = at + links[i].site;
                    if n.blocks.contains_key(to) {
                        aims(n.bytes, site, n.blocks[to].offset as int)
                    } else {
                        &&& n.waiting.contains(PendingLink { site: site as usize, to })
                        &&& n.bytes.subrange(site, site + 4) == code.subrange(
                            links[i].site as int,
                            links[i].site + 4,
                        )
                    }
                }
            &&& forall|i: int|
                0 <= i < s.waiting.len() ==> if (#[trigger] s.waiting[i]).to == key {
                    aims(n.bytes, s.waiting[i].site as int, at)
                } else {
                    n.waiting.contains(s.waiting[i])
                }
            &&& forall|i: int|
                0 <= i < n.waiting.len() ==> !n.blocks.contains_key((#[trigger] n.waiting[i]).to)
            &&& forall|i: int|
                0 <= i < n.waiting.len() ==> s.waiting.contains(#[trigger] n.waiting[i])
                    || is_link_site(links, at, n.waiting[i].site as int)
            &&& forall|p: int|
                0 <= p < s.used && !waits_at(s.waiting, key, p) ==> #[trigger] n.bytes[p]
                    == s.bytes[p]
            &&& forall|p: int|
                0 <= p < code.len() && !in_links(links, at, at + p) ==> n.bytes[at + p]
                    == #[trigger] code[p]
        }),
{
    let at = s.next_offset();
    let len = code.len() as int;
    let info = BlockInfo { offset: at as usize, len: code.len() as usize, end };
    let a = s.append(code);
    let b = Cached { blocks: a.blocks.insert(key, info), ..a };
    assert(b.bytes.len() == s.bytes.len());
    assert(sound(b));
    lemma_resolve_all(b, links, at, key.bank, len);
    let c = b.resolve_all(links, at, key.bank);
    lemma_connect(c, c.waiting, key, at);
    let d = c.connect(c.waiting, key, at);
    let n = s.install(key, code, links, end);
    lemma_still_waiting(c.waiting, key);
    assert(n == (Cached { waiting: still_waiting(c.waiting, key), ..d }));
    // Only old jumps wait for the new block.
    assert forall|i: int| 0 <= i < c.waiting.len() && (#[trigger] c.waiting[i]).to == key implies i
        < s.waiting.len() by {
        if i >= s.waiting.len() {
            assert(!b.blocks.contains_key(c.waiting[i].to));
        }
    }
    assert forall|i: int| 0 <= i < s.waiting.len() implies c.waiting[i] == s.waiting[i] by {
        assert(c.waiting.take(s.waiting.len() as int)[i] == s.waiting[i]);
    }
    assert forall|p: int| waits_at(c.waiting, key, p) implies waits_at(s.waiting, key, p) && p
        < s.used by {
        let i = choose|i: int|
            0 <= i < c.waiting.len() && (#[trigger] c.waiting[i]).to == key && c.waiting[i].site
                <= p < c.waiting[i].site + 4;
        assert(s.waiting[i] == c.waiting[i]);
        assert(s.waiting[i].site + 4 <= s.used);
    }
    assert forall|i: int| 0 <= i < links.len() implies {
        let to = BlockKey { bank: key.bank, addr: (#[trigger] links[i]).target };
        let site = at + links[i].site;
        if n.blocks.contains_key(to) {
            aims(n.bytes, site, n.blocks[to].offset as int)
        } else {
            &&& n.waiting.contains(PendingLink { site: site as usize, to })
            &&& n.bytes.subrange(site, site + 4) == code.subrange(
                links[i].site as int,
                links[i].site + 4,
            )
        }
    } by {
        let to = BlockKey { bank: key.bank, addr: links[i].target };
        let site = at + links[i].site;
        if b.blocks.contains_key(to) {
            assert(links[i].site + 4 <= len);
            lemma_aims_kept(c.bytes, d.bytes, site, b.blocks[to].offset as int);
        } else {
            assert(still_waiting(c.waiting, key).contains(
                PendingLink { site: site as usize, to },
            ));
            assert(links[i].site + 4 <= len);
            assert(same_field(c.bytes, b.bytes, site));
            assert forall|p: int| site <= p < site + 4 implies #[trigger] n.bytes[p] == code[p - at] by {
                assert(!waits_at(c.waiting, key, p));
                assert(d.bytes[p] == c.bytes[p]);
                assert(b.bytes[p] == code[p - at]);
            }
            assert(n.bytes.subrange(site, site + 4) =~= code.subrange(
                links[i].site as int,
                links[i].site + 4,
            ));
        }
    }
    assert forall|i: int| 0 <= i < s.waiting.len() implies if (#[trigger] s.waiting[i]).to == key {
        aims(n.bytes, s.waiting[i].site as int, at)
    } else {
        n.waiting.contains(s.waiting[i])
    } by {
        assert(c.waiting[i] == s.waiting[i]);
        if s.waiting[i].to != key {
            assert(c.waiting.contains(c.waiting[i]));
            assert(still_waiting(c.waiting, key).contains(s.waiting[i]));
        }
    }
    assert forall|i: int| 0 <= i < n.waiting.len() implies !n.blocks.contains_key(
        (#[trigger] n.waiting[i]).to,
    ) && n.waiting[i].site + 4 <= n.used && (s.waiting.contains(n.waiting[i]) || is_link_site(
        links,
        at,
        n.waiting[i].site as int,
    )) by {
        assert(n.waiting.contains(n.waiting[i]));
        assert(c.waiting.contains(n.waiting[i]));
        let w = choose|w: int| 0 <= w < c.waiting.len() && c.waiting[w] == n.waiting[i];
        assert(c.waiting[w].site + 4 <= c.used);
        if w < s.waiting.len() {
            assert(c.waiting[w] == s.waiting[w]);
            assert(!s.blocks.contains_key(s.waiting[w].to));
        } else {
            assert(!b.blocks.contains_key(c.waiting[w].to));
        }
    }
    assert forall|p: int| 0 <= p < s.used && !waits_at(s.waiting, key, p) implies
        #[trigger] n.bytes[p] == s.bytes[p] by {
        assert(!in_links(links, at, p));
        assert(b.bytes[p] == s.bytes[p]);
        assert(c.bytes[p] == b.bytes[p]);
    }
    assert forall|p: int| 0 <= p < code.len() && !in_links(links, at, at + p) implies n.bytes[at + p]
        == #[trigger] code[p] by {
        assert(b.bytes[at + p] == code[p]);
        assert(c.bytes[at + p] == b.bytes[at + p]);
        assert(!waits_at(c.waiting, key, at + p));
        assert(d.bytes[at + p] == c.bytes[at + p]);
    }
}

/// An exported cache put into any other with room for it, in which nothing has been
/// translated yet, is the same code with the same entry points.
pub proof fn law_export_import(
    s: Cached,
    into: Cached,
    blob: Seq<u8>,
    map: Seq<(BlockKey, u32, u32)>,
)
    requires
        s.wf(),
        s.used <= u32::MAX,
        into.wf(),
        into.blocks == Map::<BlockKey, BlockInfo>::empty(),
        s.used <= into.bytes.len(),
        blob == s.bytes.take(s.used as int),
        is_block_map(map, s.blocks),
    ensures
        ({
            let n = into.import(blob, map);
            &&& n.wf()
            &&& n.bytes.take(n.used as int) == s.bytes.take(s.used as int)
            &&& n.used == s.used
            &&& n.blocks.dom() == s.blocks.dom()
            &&& forall|k: BlockKey| #[trigger]
                s.blocks.contains_key(k) ==> n.blocks[k].offset == s.blocks[k].offset
                    && n.blocks[k].end == s.blocks[k].end
        }),
{
    let base = Cached { bytes: bytes::splice(into.bytes, 0, blob), used: blob.len(), ..into };
    lemma_import_blocks(base, map, s);
    let n = into.import(blob, map);
    assert(n.bytes.take(n.used as int) =~= s.bytes.take(s.used as int));
    assert(n.blocks.dom() =~= s.blocks.dom());
}

proof fn lemma_import_blocks(base: Cached, map: Seq<(BlockKey, u32, u32)>, s: Cached)
    requires
        base.blocks == Map::<BlockKey, BlockInfo>::empty(),
        s.wf(),
        s.used <= u32::MAX,
        forall|i: int|
            0 <= i < map.len() ==> {
                let (key, offset, end) = #[trigger] map[i];
                &&& s.blocks.contains_key(key)
                &&& offset == bus::wrap32(s.blocks[key].offset as int)
                &&& end == s.blocks[key].end
            },
    ensures
        ({
            let n = base.import_blocks(map);
            &&& n.bytes == base.bytes
            &&& n.used == base.used
            &&& n.waiting == base.waiting
            &&& forall|k: BlockKey| #[trigger]
                n.blocks.contains_key(k) <==> exists|i: int|
                    0 <= i < map.len() && #[trigger] map[i].0 == k
            &&& forall|k: BlockKey| #[trigger]
                n.blocks.contains_key(k) ==> s.blocks.contains_key(k) && n.blocks[k].offset
                    == s.blocks[k].offset && n.blocks[k].end == s.blocks[k].end
        }),
    decreases map.len(),
{
    if map.len() > 0 {
        let before = map.drop_last();
        let k = map.len() - 1;
        assert forall|i: int| 0 <= i < before.len() implies before[i] == map[i] by {}
        lemma_import_blocks(base, before, s);
        let r = base.import_blocks(before);
        let n = base.import_blocks(map);
        let (key, offset, end) = map[k];
        assert(s.blocks[key].offset <= s.used);
        assert forall|x: BlockKey| #[trigger] n.blocks.contains_key(x) <==> exists|i: int|
            0 <= i < map.len() && #[trigger] map[i].0 == x by {
            if r.blocks.contains_key(x) {
                let i = choose|i: int| 0 <= i < before.len() && #[trigger] before[i].0 == x;
                assert(map[i].0 == x);
            }
            if exists|i: int| 0 <= i < map.len() && #[trigger] map[i].0 == x {
                let i = choose|i: int| 0 <= i < map.len() && #[trigger] map[i].0 == x;
                if i < k {
                    assert(before[i].0 == x);
                    assert(r.blocks.contains_key(x));
                }
            }
            assert(map[k].0 == key);
        }
    }
}

} // verus!
