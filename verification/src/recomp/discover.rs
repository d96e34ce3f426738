//! Finding the code in a cartridge before it runs.
//!
//! Recursive descent from the hardware's entry points follows every jump and
//! call whose destination is written into the instruction. What it cannot follow
//! (computed jumps, and calls into whichever bank happens to be mapped) is left
//! to the runtime, which translates those the first time the game goes there.

use std::collections::BTreeMap;
use vstd::prelude::*;
use crate::recomp::decode;
use crate::recomp::decode::{decode_in, Flow, Insn};
use crate::recomp::descent;
use crate::recomp::exec;
use crate::recomp::exec::BlockKey;
use crate::recomp::ordered;
use crate::recomp::ordered::keys_of;
use crate::recomp::program;
use crate::recomp::program::MAX_INSTRUCTIONS;
use crate::recomp::translate::region;

verus! {

/// Where the hardware can start executing without being told to: the cartridge
/// entry point, the eight restart vectors, and the five interrupt vectors.
pub const ENTRY_POINTS: [u16; 14] = [
    0x0100, 0x0000, 0x0008, 0x0010, 0x0018, 0x0020, 0x0028, 0x0030, 0x0038, 0x0040, 0x0048, 0x0050,
    0x0058, 0x0060,
];

#[derive(Debug, Clone)]
pub struct Report {
    /// Every block worth translating ahead of time.
    pub blocks: Vec<BlockKey>,
    /// Addresses in the switchable window that some bank calls into.
    pub shared_entries: usize,
    /// True if the budget ran out before discovery settled.
    pub truncated: bool,
}

/// How many instructions a routine may run on without a return or a jump.
pub const HORIZON: usize = 32;

// ---- reading the cartridge -----------------------------------------------

/// The byte at `addr` with `bank` selected in 0x4000-0x7FFF. Nothing outside the
/// cartridge can be read ahead of time.
pub open spec fn rom_byte(rom: Seq<u8>, bank: u16, addr: u16) -> u8 {
    let index = if addr < 0x4000 {
        addr as int
    } else {
        bank * 0x4000 + (addr - 0x4000)
    };
    if addr < 0x8000 && index < rom.len() {
        rom[index]
    } else {
        0xff
    }
}

/// The address space with `bank` selected.
pub open spec fn rom_image(rom: Seq<u8>, bank: u16) -> spec_fn(u16) -> u8 {
    |addr: u16| rom_byte(rom, bank, addr)
}

/// Read a byte as it would appear with `bank` selected in 0x4000-0x7FFF.
pub fn peek(rom: &[u8], bank: u16, addr: u16) -> (b: u8)
    ensures
        b == rom_byte(rom@, bank, addr),
{
    if addr >= 0x8000 {
        return 0xff;
    }
    let index: usize = if addr < 0x4000 {
        addr as usize
    } else {
        bank as usize * 0x4000 + (addr as usize - 0x4000)
    };
    if index < rom.len() {
        rom[index]
    } else {
        0xff
    }
}

fn insn_in(rom: &[u8], bank: u16, addr: u16) -> (insn: Insn)
    ensures
        insn == decode::insn_at(rom_image(rom@, bank), addr),
        1 <= insn.len <= 3,
{
    let fetch = |a: u16| -> (b: u8)
        ensures
            b == rom_byte(rom@, bank, a),
        { peek(rom, bank, a) };
    decode_in(addr, &fetch, Ghost(rom_image(rom@, bank)))
}

// ---- one block -----------------------------------------------------------

/// Where control can go from `insn`, which ends a block, as far as it is written
/// in the instruction.
pub open spec fn ways_on(insn: Insn) -> Seq<u16> {
    let next = decode::next_addr(insn);
    match insn.flow {
        Flow::Normal => seq![next],
        Flow::Jump { target, conditional } => if conditional {
            seq![target, next]
        } else {
            seq![target]
        },
        Flow::Call { target, .. } => seq![target, next],
        Flow::Rst { target } => seq![target, next],
        Flow::Ret { conditional, .. } => if conditional {
            seq![next]
        } else {
            seq![]
        },
        Flow::JumpIndirect | Flow::Illegal => seq![],
        Flow::Halt | Flow::Stop => seq![next],
    }
}

/// Where the block at `start` ends and where it can go next, from its
/// instruction number `count` on. A block that has not ended within the
/// translator's own cap goes nowhere.
pub open spec fn scan(mem: spec_fn(u16) -> u8, start: u16, pc: u16, count: nat) -> (
    u16,
    Seq<u16>,
)
    decreases MAX_INSTRUCTIONS - count,
{
    if count >= MAX_INSTRUCTIONS {
        (pc, seq![])
    } else {
        let insn = decode::insn_at(mem, pc);
        let next = decode::next_addr(insn);
        if insn.flow is Normal && program::region_of(next) == program::region_of(start) {
            scan(mem, start, next, count + 1)
        } else {
            (next, ways_on(insn))
        }
    }
}

/// Walk one basic block, reporting where it ends and where it can go next.
fn scan_block(rom: &[u8], bank: u16, start: u16) -> (r: (u16, Vec<u16>))
    ensures
        (r.0, r.1@) == scan(rom_image(rom@, bank), start, start, 0),
{
    let ghost mem = rom_image(rom@, bank);
    let mut pc: u16 = start;
    let mut count: usize = 0;
    while count < MAX_INSTRUCTIONS
        invariant
            mem == rom_image(rom@, bank),
            count <= MAX_INSTRUCTIONS,
            scan(mem, start, start, 0) == scan(mem, start, pc, count as nat),
        decreases MAX_INSTRUCTIONS - count,
    {
        let insn = insn_in(rom, bank, pc);
        pc = pc.wrapping_add(insn.len as u16);
        count += 1;
        let mut successors: Vec<u16> = Vec::new();
        match insn.flow {
            Flow::Normal => {
                if region(pc) == region(start) {
                    continue;
                }
                successors.push(pc);
            },
            Flow::Jump { target, conditional } => {
                successors.push(target);
                if conditional {
                    successors.push(pc);
                }
            },
            Flow::Call { target, .. } => {
                successors.push(target);
                successors.push(pc);
            },
            Flow::Rst { target } => {
                successors.push(target);
                successors.push(pc);
            },
            Flow::Ret { conditional, .. } => {
                if conditional {
                    successors.push(pc);
                }
            },
            // The destination only exists at run time.
            Flow::JumpIndirect | Flow::Illegal => {},
            Flow::Halt | Flow::Stop => successors.push(pc),
        }
        assert(successors@ =~= ways_on(insn));
        return (pc, successors);
    }
    (pc, Vec::new())
}

/// Whether the bytes at `addr` read as a routine, from its instruction number
/// `count` on, which is at `pc`.
pub open spec fn reads_as_code(mem: spec_fn(u16) -> u8, addr: u16, pc: u16, count: nat) -> bool
    decreases HORIZON - count,
{
    if count >= HORIZON {
        false
    } else {
        let insn = decode::insn_at(mem, pc);
        let next = decode::next_addr(insn);
        if insn.flow is Illegal {
            false
        } else if insn.flow.ends_block() {
            !(insn.flow is Stop)
        } else if program::region_of(next) != program::region_of(addr) {
            false
        } else {
            reads_as_code(mem, addr, next, count + 1)
        }
    }
}

/// Decide whether a speculative entry point really holds code in this bank.
///
/// Bank 0 calls into the switchable window at addresses that are only valid for
/// whichever bank is mapped at the time, and there is no way to know statically
/// which that is. So each candidate is tried against every bank, and this is
/// what rejects the ones that land in data: a run of bytes that is not code
/// almost always decodes into an opcode the hardware does not have, or rambles
/// on without ever reaching a return or a jump.
#[verifier::spinoff_prover]
#[verifier::rlimit(40)]
fn looks_like_code(rom: &[u8], bank: u16, addr: u16) -> (b: bool)
    ensures
        b == reads_as_code(rom_image(rom@, bank), addr, addr, 0),
{
    let ghost mem = rom_image(rom@, bank);
    let mut pc: u16 = addr;
    let mut count: usize = 0;
    while count < HORIZON
        invariant
            mem == rom_image(rom@, bank),
            count <= HORIZON,
            reads_as_code(mem, addr, addr, 0) == reads_as_code(mem, addr, pc, count as nat),
        decreases HORIZON - count,
    {
        let insn = insn_in(rom, bank, pc);
        if insn.flow == Flow::Illegal {
            return false;
        }
        // Reaching a return or a jump means this reads as a real routine.
        if insn.flow.ends_block() {
            return !matches!(insn.flow, Flow::Stop);
        }
        pc = pc.wrapping_add(insn.len as u16);
        if region(pc) != region(addr) {
            return false;
        }
        count += 1;
    }
    // Thirty-two instructions of straight-line code with no branch in sight is
    // not how games are written; this is data that happens to decode.
    false
}

// ---- descent -------------------------------------------------------------

/// A descent under way.
#[verifier::ext_equal]
pub struct Search {
    /// Addresses still to look at, the next one last.
    pub work: Seq<u16>,
    pub found: Set<BlockKey>,
    /// Addresses in the switchable window that something jumps to.
    pub shared: Set<u16>,
    pub budget: nat,
    /// The descent keeps to the fixed window.
    pub fixed_only: bool,
    /// The budget ran out with a block still to add.
    pub truncated: bool,
}

/// The key of the block at `addr` while `bank` is selected. In the fixed window
/// the bank is irrelevant, so those blocks are keyed once.
pub open spec fn key_at(bank: u16, addr: u16) -> BlockKey {
    BlockKey {
        bank: if program::region_of(addr) == 0 {
            0
        } else {
            bank
        },
        addr,
    }
}

/// A descent can follow a jump to `addr`: it is in the fixed window, or in the switchable
/// one and the descent is not kept out of it. RAM is not in the cartridge.
pub open spec fn in_reach(fixed_only: bool, addr: u16) -> bool {
    program::region_of(addr) == 0 || (program::region_of(addr) == 1 && !fixed_only)
}

/// The addresses that a descent can follow, in order.
pub open spec fn followed(fixed_only: bool, targets: Seq<u16>) -> Seq<u16>
    decreases targets.len(),
{
    if targets.len() == 0 {
        seq![]
    } else {
        let rest = followed(fixed_only, targets.drop_last());
        if in_reach(fixed_only, targets.last()) {
            rest.push(targets.last())
        } else {
            rest
        }
    }
}

/// The addresses in the switchable window, added to `shared`.
pub open spec fn add_shared(shared: Set<u16>, targets: Seq<u16>) -> Set<u16>
    decreases targets.len(),
{
    if targets.len() == 0 {
        shared
    } else {
        let rest = add_shared(shared, targets.drop_last());
        if program::region_of(targets.last()) == 1 {
            rest.insert(targets.last())
        } else {
            rest
        }
    }
}

/// The successors of the block at `addr`.
pub open spec fn successors(rom: Seq<u8>, bank: u16, addr: u16) -> Seq<u16> {
    scan(rom_image(rom, bank), addr, addr, 0).1
}

impl Search {
    pub open spec fn halted(self) -> bool {
        self.truncated || self.work.len() == 0
    }

    /// Look at the next address.
    pub open spec fn step(self, rom: Seq<u8>, bank: u16) -> Search {
        if self.halted() {
            self
        } else {
            let addr = self.work.last();
            let rest = self.work.drop_last();
            let key = key_at(bank, addr);
            if !in_reach(self.fixed_only, addr) || self.found.contains(key) {
                Search { work: rest, ..self }
            } else if self.budget == 0 {
                Search { work: rest, truncated: true, ..self }
            } else {
                let next = successors(rom, bank, addr);
                Search {
                    work: rest + followed(self.fixed_only, next),
                    found: self.found.insert(key),
                    shared: add_shared(self.shared, next),
                    budget: (self.budget - 1) as nat,
                    ..self
                }
            }
        }
    }

    pub open spec fn after(self, rom: Seq<u8>, bank: u16, n: nat) -> Search
        decreases n,
    {
        if n == 0 {
            self
        } else {
            self.after(rom, bank, (n - 1) as nat).step(rom, bank)
        }
    }

    /// Where the descent comes to rest.
    pub open spec fn settled(self, rom: Seq<u8>, bank: u16) -> Search {
        self.after(rom, bank, choose|n: nat| self.after(rom, bank, n).halted())
    }
}

/// A descent that has come to rest stays there.
proof fn lemma_rest(s: Search, rom: Seq<u8>, bank: u16, n: nat, m: nat)
    requires
        s.after(rom, bank, n).halted(),
        n <= m,
    ensures
        s.after(rom, bank, m) == s.after(rom, bank, n),
    decreases m - n,
{
    if n < m {
        lemma_rest(s, rom, bank, n, (m - 1) as nat);
    }
}

/// There is one place where it comes to rest.
pub proof fn lemma_settled(s: Search, rom: Seq<u8>, bank: u16, n: nat)
    requires
        s.after(rom, bank, n).halted(),
    ensures
        s.settled(rom, bank) == s.after(rom, bank, n),
        s.settled(rom, bank).halted(),
{
    let c = choose|c: nat| s.after(rom, bank, c).halted();
    if c <= n {
        lemma_rest(s, rom, bank, c, n);
    } else {
        lemma_rest(s, rom, bank, n, c);
    }
}

/// The keys that stand in a map by their numbers.
spec fn keys_of_map(m: Map<u32, ()>) -> Set<BlockKey> {
    exec::keys_in(m.dom())
}

/// The addresses that stand in a map.
spec fn addresses_of(m: Map<u32, ()>) -> Set<u16> {
    Set::new(|a: u16| m.contains_key(a as u32))
}

/// Nothing but addresses stands in a map.
spec fn only_addresses(m: Map<u32, ()>) -> bool {
    forall|n: u32| #[trigger] m.contains_key(n) ==> n < 0x1_0000
}

/// Descend from `seeds` within one bank, adding what it finds to `found`.
fn descend(
    rom: &[u8],
    bank: u16,
    fixed_only: bool,
    seeds: &[u16],
    found: &mut BTreeMap<u32, ()>,
    shared: &mut BTreeMap<u32, ()>,
    budget: &mut usize,
) -> (truncated: bool)
    requires
        only_addresses(old(shared)@),
    ensures
        ({
            let s = Search {
                work: seeds@,
                found: keys_of_map(old(found)@),
                shared: addresses_of(old(shared)@),
                budget: *old(budget) as nat,
                fixed_only,
                truncated: false,
            }.settled(rom@, bank);
            &&& s.halted()
            &&& keys_of_map(final(found)@) == s.found
            &&& addresses_of(final(shared)@) == s.shared
            &&& *final(budget) == s.budget
            &&& truncated == s.truncated
            &&& only_addresses(final(shared)@)
        }),
{
    broadcast use ordered::group_numbers;

    let ghost start = Search {
        work: seeds@,
        found: keys_of_map(found@),
        shared: addresses_of(shared@),
        budget: *budget as nat,
        fixed_only,
        truncated: false,
    };
    let mut work: Vec<u16> = vstd::slice::slice_to_vec(seeds);
    let ghost mut n: nat = 0;
    assert(start.after(rom@, bank, 0) == start);
    loop
        invariant
            start == (Search {
                work: seeds@,
                found: keys_of_map(old(found)@),
                shared: addresses_of(old(shared)@),
                budget: *old(budget) as nat,
                fixed_only,
                truncated: false,
            }),
            only_addresses(shared@),
            start.after(rom@, bank, n) == (Search {
                work: work@,
                found: keys_of_map(found@),
                shared: addresses_of(shared@),
                budget: *budget as nat,
                fixed_only,
                truncated: false,
            }),
        decreases *budget, work@.len(),
    {
        let ghost before = start.after(rom@, bank, n);
        let addr: u16 = match work.pop() {
            Some(addr) => addr,
            None => {
                proof {
                    lemma_settled(start, rom@, bank, n);
                }
                return false;
            },
        };
        proof {
            assert(work@ == before.work.drop_last() && addr == before.work.last());
            n = n + 1;
            assert(start.after(rom@, bank, n) == before.step(rom@, bank));
        }
        // RAM-resident code is not in the file and cannot be found from here.
        if region(addr) == 2 || (region(addr) == 1 && fixed_only) {
            continue;
        }
        let key = BlockKey {
            bank: if region(addr) == 0 {
                0
            } else {
                bank
            },
            addr,
        };
        proof {
            lemma_insert_key(found@.dom(), key);
        }
        let number: u32 = key.number();
        if found.contains_key(&number) {
            continue;
        }
        if *budget == 0 {
            proof {
                lemma_settled(start, rom@, bank, n);
            }
            return true;
        }
        *budget -= 1;
        found.insert(number, ());
        assert(keys_of_map(found@) =~= before.found.insert(key));

        let (_, targets) = scan_block(rom, bank, addr);
        let ghost rest = work@;
        let ghost shared0 = shared@;
        let ghost found1 = found@;
        assert(targets@.take(0) =~= seq![]);
        assert(rest + followed(fixed_only, seq![]) =~= rest);
        let mut i: usize = 0;
        while i < targets.len()
            invariant
                i <= targets@.len(),
                only_addresses(shared@),
                work@ == rest + followed(fixed_only, targets@.take(i as int)),
                addresses_of(shared@) == add_shared(
                    addresses_of(shared0),
                    targets@.take(i as int),
                ),
            decreases targets@.len() - i,
        {
            let target: u16 = targets[i];
            proof {
                assert(targets@.take(i + 1).drop_last() =~= targets@.take(i as int));
                assert(targets@.take(i + 1).last() == target);
            }
            if region(target) == 1 {
                // Which bank this belongs to is a runtime question; remember the
                // address so every bank gets a chance at it.
                let ghost m = shared@;
                shared.insert(target as u32, ());
                assert(addresses_of(shared@) =~= addresses_of(m).insert(target));
            }
            if region(target) == 0 || (region(target) == 1 && !fixed_only) {
                work.push(target);
                assert(work@ =~= rest + followed(fixed_only, targets@.take(i + 1)));
            }
            i += 1;
        }
        assert(targets@.take(targets@.len() as int) =~= targets@);
    }
}

proof fn lemma_insert_key(numbers: Set<u32>, key: BlockKey)
    ensures
        numbers.contains(key.number()) <==> exec::keys_in(numbers).contains(key),
        exec::keys_in(numbers.insert(key.number())) == exec::keys_in(numbers).insert(key),
{
    assert forall|k: BlockKey| k.number() == key.number() implies k == key by {
        exec::lemma_key_numbers(k, 0);
        exec::lemma_key_numbers(key, 0);
    }
    assert(exec::keys_in(numbers.insert(key.number())) =~= exec::keys_in(numbers).insert(key));
}

// ---- the whole cartridge -------------------------------------------------

/// The addresses that read as code in `bank`, in order.
pub open spec fn viable(rom: Seq<u8>, bank: u16, seeds: Seq<u16>) -> Seq<u16>
    decreases seeds.len(),
{
    if seeds.len() == 0 {
        seq![]
    } else {
        let rest = viable(rom, bank, seeds.drop_last());
        let addr = seeds.last();
        if reads_as_code(rom_image(rom, bank), addr, addr, 0) {
            rest.push(addr)
        } else {
            rest
        }
    }
}

/// Discovery between two banks.
#[verifier::ext_equal]
pub struct Pass {
    pub found: Set<BlockKey>,
    pub remaining: nat,
    pub truncated: bool,
}

impl Pass {
    /// Try the shared entry points in one bank. What is found there is
    /// speculative, so each bank has an allowance. Discovery is cut short only
    /// where the budget itself is spent.
    pub open spec fn bank(self, rom: Seq<u8>, bank: u16, seeds: Seq<u16>, per_bank: nat) -> Pass {
        let work = viable(rom, bank, seeds);
        if self.truncated || per_bank == 0 || work.len() == 0 {
            self
        } else {
            let allowance = if per_bank <= self.remaining {
                per_bank
            } else {
                self.remaining
            };
            let end = Search {
                work,
                found: self.found,
                shared: Set::empty(),
                budget: allowance,
                fixed_only: false,
                truncated: false,
            }.settled(rom, bank);
            let remaining = (self.remaining - (allowance - end.budget)) as nat;
            Pass { found: end.found, remaining, truncated: end.truncated && remaining == 0 }
        }
    }

    /// Try the banks from 1 up to, but not including, `end`.
    pub open spec fn banks(
        self,
        rom: Seq<u8>,
        end: int,
        seeds: Seq<u16>,
        per_bank: nat,
    ) -> Pass
        decreases end,
    {
        if end <= 1 {
            self
        } else {
            self.banks(rom, end - 1, seeds, per_bank).bank(
                rom,
                (end - 1) as u16,
                seeds,
                per_bank,
            )
        }
    }
}

/// The descent from the hardware's entry points. The fixed window comes first:
/// everything there is reachable whatever is mapped. Unless it keeps to that window, it
/// goes on into bank 1, which is the one that is mapped when the game starts.
pub open spec fn first_descent(rom: Seq<u8>, budget: nat, fixed_only: bool) -> Search {
    Search {
        work: ENTRY_POINTS@,
        found: Set::empty(),
        shared: Set::empty(),
        budget,
        fixed_only,
        truncated: false,
    }.settled(rom, 1)
}

/// The addresses of a set, smallest first.
pub open spec fn in_order(seeds: Seq<u16>, shared: Set<u16>) -> bool {
    &&& forall|i: int, j: int| 0 <= i < j < seeds.len() ==> seeds[i] < seeds[j]
    &&& seeds.to_set() == shared
}

/// How many banks a cartridge has, as a 16-bit number.
pub open spec fn bank_count(rom: Seq<u8>) -> int {
    (if rom.len() / 0x4000 >= 2 {
        (rom.len() / 0x4000) as int
    } else {
        2
    }) % 0x1_0000
}

/// What discovery makes of the shared entry points `seeds`.
pub open spec fn discovered(rom: Seq<u8>, budget: nat, per_bank: nat, seeds: Seq<u16>) -> Pass {
    let first = first_descent(rom, budget, per_bank == 0);
    Pass { found: first.found, remaining: first.budget, truncated: first.truncated }.banks(
        rom,
        bank_count(rom),
        seeds,
        per_bank,
    )
}

/// The report lists what discovery found: every block once, in the order of the
/// keys.
pub open spec fn reports(report: Report, rom: Seq<u8>, budget: nat, per_bank: nat) -> bool {
    let shared = first_descent(rom, budget, per_bank == 0).shared;
    &&& report.shared_entries == shared.len()
    &&& forall|i: int, j: int|
        0 <= i < j < report.blocks@.len() ==> report.blocks@[i].number()
            < report.blocks@[j].number()
    &&& exists|seeds: Seq<u16>| #[trigger]
        in_order(seeds, shared) && {
            let pass = discovered(rom, budget, per_bank, seeds);
            &&& report.blocks@.to_set() == pass.found
            &&& report.truncated == pass.truncated
        }
}

/// The addresses of a map, smallest first.
fn sorted_addresses(m: &BTreeMap<u32, ()>) -> (seeds: Vec<u16>)
    requires
        only_addresses(m@),
    ensures
        in_order(seeds@, addresses_of(m@)),
        seeds@.len() == addresses_of(m@).len(),
{
    let numbers = keys_of(m);
    let mut seeds: Vec<u16> = Vec::new();
    let mut i: usize = 0;
    while i < numbers.len()
        invariant
            i <= numbers@.len(),
            only_addresses(m@),
            numbers@.to_set() == m@.dom(),
            seeds@.len() == i,
            forall|j: int| 0 <= j < i ==> #[trigger] seeds@[j] == numbers@[j],
        decreases numbers@.len() - i,
    {
        let n: u32 = numbers[i];
        assert(numbers@.to_set().contains(n));
        assert(m@.contains_key(n));
        seeds.push(n as u16);
        i += 1;
    }
    proof {
        assert forall|a: u16| seeds@.to_set().contains(a) <==> #[trigger] addresses_of(
            m@,
        ).contains(a) by {
            if seeds@.contains(a) {
                let j = choose|j: int| 0 <= j < seeds@.len() && seeds@[j] == a;
                assert(numbers@.to_set().contains(numbers@[j]));
            }
            if addresses_of(m@).contains(a) {
                assert(numbers@.to_set().contains(a as u32));
                let j = choose|j: int| 0 <= j < numbers@.len() && numbers@[j] == a as u32;
                assert(seeds@[j] == a);
            }
        }
        assert(seeds@.to_set() =~= addresses_of(m@));
        assert(seeds@.no_duplicates());
        seeds@.unique_seq_to_set();
    }
    seeds
}

/// The addresses that read as code in `bank`.
fn viable_seeds(rom: &[u8], bank: u16, seeds: &Vec<u16>) -> (work: Vec<u16>)
    ensures
        work@ == viable(rom@, bank, seeds@),
{
    let mut work: Vec<u16> = Vec::new();
    let mut i: usize = 0;
    assert(seeds@.take(0) =~= seq![]);
    while i < seeds.len()
        invariant
            i <= seeds@.len(),
            work@ == viable(rom@, bank, seeds@.take(i as int)),
        decreases seeds@.len() - i,
    {
        let addr: u16 = seeds[i];
        proof {
            assert(seeds@.take(i + 1).drop_last() =~= seeds@.take(i as int));
            assert(seeds@.take(i + 1).last() == addr);
        }
        if looks_like_code(rom, bank, addr) {
            work.push(addr);
        }
        i += 1;
    }
    assert(seeds@.take(seeds@.len() as int) =~= seeds@);
    work
}

/// Once there is nothing more to do, more banks change nothing.
proof fn lemma_banks_stop(p: Pass, rom: Seq<u8>, end: int, seeds: Seq<u16>, per_bank: nat, last: int)
    requires
        1 <= end <= last,
        p.banks(rom, end, seeds, per_bank).truncated || per_bank == 0,
    ensures
        p.banks(rom, last, seeds, per_bank) == p.banks(rom, end, seeds, per_bank),
    decreases last - end,
{
    if end < last {
        lemma_banks_stop(p, rom, end, seeds, per_bank, last - 1);
    }
}

/// Find everything in `rom` worth translating before the game starts.
///
/// `budget` caps the number of blocks, so a cartridge whose data happens to
/// decode as plausible code cannot make conversion run away.
pub fn discover(rom: &[u8], budget: usize) -> (report: Report)
    ensures
        reports(report, rom@, budget as nat, 4096),
        report.blocks@.len() <= budget,
{
    discover_with(rom, budget, 4096)
}

/// As `discover`, but with an explicit per-bank allowance for speculative work. A zero
/// allowance means that only the fixed window is wanted.
pub fn discover_with(rom: &[u8], budget: usize, per_bank: usize) -> (report: Report)
    ensures
        reports(report, rom@, budget as nat, per_bank as nat),
        report.blocks@.len() <= budget,
        per_bank == 0 ==> forall|i: int|
            0 <= i < report.blocks@.len() ==> (#[trigger] report.blocks@[i]).bank == 0
                && report.blocks@[i].addr < 0x4000,
{
    broadcast use ordered::group_numbers;

    let whole: usize = rom.len() / 0x4000;
    let banks: usize = (if whole >= 2 {
        whole
    } else {
        2
    }) % 0x1_0000;
    let mut found: BTreeMap<u32, ()> = BTreeMap::new();
    let mut shared: BTreeMap<u32, ()> = BTreeMap::new();
    let mut remaining: usize = budget;
    assert(keys_of_map(found@) =~= Set::empty());
    assert(addresses_of(shared@) =~= Set::empty());

    // The fixed window first: everything here is reachable whatever is mapped.
    let entries = ENTRY_POINTS;
    let mut truncated = descend(
        rom,
        1,
        per_bank == 0,
        entries.as_slice(),
        &mut found,
        &mut shared,
        &mut remaining,
    );

    // Banked code is entered at addresses the fixed window calls into. A game
    // switches the bank and then calls a known address, so the same entry point
    // is usually valid in many banks; the ones where it is not decode as
    // nonsense and get rejected.
    let seeds = sorted_addresses(&shared);
    let shared_entries: usize = seeds.len();
    let ghost fixed = first_descent(rom@, budget as nat, per_bank == 0);
    let ghost first = Pass {
        found: fixed.found,
        remaining: fixed.budget,
        truncated: fixed.truncated,
    };
    let mut bank: usize = 1;
    while bank < banks && !truncated && per_bank != 0
        invariant
            1 <= bank,
            banks == bank_count(rom@),
            bank <= banks || bank == 1,
            first.banks(rom@, bank as int, seeds@, per_bank as nat) == (Pass {
                found: keys_of_map(found@),
                remaining: remaining as nat,
                truncated,
            }),
        decreases banks - bank,
    {
        let number: u16 = bank as u16;
        let work = viable_seeds(rom, number, &seeds);
        bank += 1;
        if work.len() == 0 {
            continue;
        }
        // Bank-local discovery is speculative, so give each bank a fixed
        // allowance. Anything missed is translated when the game gets there.
        let mut allowance: usize = if per_bank <= remaining {
            per_bank
        } else {
            remaining
        };
        let mut bank_shared: BTreeMap<u32, ()> = BTreeMap::new();
        assert(addresses_of(bank_shared@) =~= Set::empty());
        let ghost search = Search {
            work: work@,
            found: keys_of_map(found@),
            shared: Set::empty(),
            budget: allowance as nat,
            fixed_only: false,
            truncated: false,
        };
        let granted: usize = allowance;
        let cut = descend(
            rom,
            number,
            false,
            work.as_slice(),
            &mut found,
            &mut bank_shared,
            &mut allowance,
        );
        proof {
            let n = choose|n: nat| search.after(rom@, number, n).halted();
            lemma_found_grows(search, rom@, number, n);
        }
        remaining = remaining - (granted - allowance);
        truncated = cut && remaining == 0;
    }
    proof {
        lemma_banks_stop_or_done(
            first,
            rom@,
            bank as int,
            seeds@,
            per_bank as nat,
            bank_count(rom@),
        );
    }
    let numbers = keys_of(&found);
    let mut blocks: Vec<BlockKey> = Vec::new();
    let mut i: usize = 0;
    while i < numbers.len()
        invariant
            i <= numbers@.len(),
            blocks@.len() == i,
            forall|j: int| 0 <= j < i ==> #[trigger] blocks@[j] == BlockKey::from_number(numbers@[j]),
        decreases numbers@.len() - i,
    {
        blocks.push(BlockKey::from_number(numbers[i]));
        i += 1;
    }
    proof {
        assert forall|i: int, j: int| 0 <= i < j < blocks@.len() implies blocks@[i].number()
            < blocks@[j].number() by {
            exec::lemma_key_numbers(blocks@[i], numbers@[i]);
            exec::lemma_key_numbers(blocks@[j], numbers@[j]);
        }
        assert forall|k: BlockKey| blocks@.to_set().contains(k) <==> #[trigger] keys_of_map(
            found@,
        ).contains(k) by {
            exec::lemma_key_numbers(k, 0);
            if blocks@.contains(k) {
                let j = choose|j: int| 0 <= j < blocks@.len() && blocks@[j] == k;
                exec::lemma_key_numbers(k, numbers@[j]);
                assert(numbers@.to_set().contains(numbers@[j]));
            }
            if keys_of_map(found@).contains(k) {
                assert(numbers@.to_set().contains(k.number()));
                let j = choose|j: int| 0 <= j < numbers@.len() && numbers@[j] == k.number();
                assert(blocks@[j] == k);
            }
        }
        assert(blocks@.to_set() =~= keys_of_map(found@));
        assert(in_order(seeds@, fixed.shared));
    }
    let report = Report { blocks, shared_entries, truncated };
    proof {
        descent::law_report_keeps_to_budget(report, rom@, budget as nat, per_bank as nat);
        if per_bank == 0 {
            descent::law_report_keeps_to_fixed_window(report, rom@, budget as nat);
        }
    }
    report
}

/// After the loop over the banks, every bank has been tried or nothing more can
/// change.
proof fn lemma_banks_stop_or_done(
    p: Pass,
    rom: Seq<u8>,
    bank: int,
    seeds: Seq<u16>,
    per_bank: nat,
    end: int,
)
    requires
        1 <= bank,
        bank >= end || p.banks(rom, bank, seeds, per_bank).truncated || per_bank == 0,
        bank > end ==> bank == 1,
    ensures
        p.banks(rom, end, seeds, per_bank) == p.banks(rom, bank, seeds, per_bank),
{
    if bank < end {
        lemma_banks_stop(p, rom, bank, seeds, per_bank, end);
    }
}

/// A descent only adds blocks: one for each unit of the budget it spends. One that keeps
/// to the fixed window adds none from elsewhere.
pub proof fn lemma_found_grows(s: Search, rom: Seq<u8>, bank: u16, n: nat)
    requires
        !s.truncated,
    ensures
        ({
            let t = s.after(rom, bank, n);
            &&& s.found.subset_of(t.found)
            &&& s.found.finite() ==> t.found.finite() && t.found.len() == s.found.len()
                + (s.budget - t.budget)
            &&& t.budget <= s.budget
            &&& t.fixed_only == s.fixed_only
            &&& s.fixed_only ==> forall|k: BlockKey| #[trigger]
                t.found.contains(k) && !s.found.contains(k) ==> k.bank == 0 && k.addr < 0x4000
        }),
    decreases n,
{
    if n > 0 {
        lemma_found_grows(s, rom, bank, (n - 1) as nat);
    }
}

/// `addr` has been found, or will be looked at, or is out of the descent's reach.
spec fn seen_to(t: Search, bank: u16, addr: u16) -> bool {
    !in_reach(t.fixed_only, addr) || t.found.contains(key_at(bank, addr)) || t.work.contains(addr)
}

proof fn lemma_followed(fixed_only: bool, targets: Seq<u16>, addr: u16)
    ensures
        followed(fixed_only, targets).contains(addr) <==> targets.contains(addr) && in_reach(
            fixed_only,
            addr,
        ),
    decreases targets.len(),
{
    if targets.len() > 0 {
        let before = targets.drop_last();
        let last = targets.last();
        lemma_followed(fixed_only, before, addr);
        let rest = followed(fixed_only, before);
        let k = targets.len() - 1;
        assert(targets[k] == last);
        if targets.contains(addr) {
            let w = choose|w: int| 0 <= w < targets.len() && targets[w] == addr;
            if w < k {
                assert(before[w] == addr);
            }
        }
        if before.contains(addr) {
            let w = choose|w: int| 0 <= w < before.len() && before[w] == addr;
            assert(targets[w] == addr);
        }
        if in_reach(fixed_only, last) {
            assert(rest.push(last)[rest.len() as int] == last);
            if rest.contains(addr) {
                let w = choose|w: int| 0 <= w < rest.len() && rest[w] == addr;
                assert(rest.push(last)[w] == addr);
            }
            if rest.push(last).contains(addr) {
                let w = choose|w: int|
                    0 <= w < rest.push(last).len() && rest.push(last)[w] == addr;
                if w < rest.len() {
                    assert(rest[w] == addr);
                }
            }
        }
    }
}

/// One step loses sight of nothing.
proof fn lemma_step_keeps(t: Search, rom: Seq<u8>, bank: u16, addr: u16)
    requires
        seen_to(t, bank, addr),
        !t.step(rom, bank).truncated,
    ensures
        seen_to(t.step(rom, bank), bank, addr),
{
    let u = t.step(rom, bank);
    if !t.halted() && t.work.contains(addr) {
        let w = choose|w: int| 0 <= w < t.work.len() && t.work[w] == addr;
        let rest = t.work.drop_last();
        if w < rest.len() {
            assert(rest[w] == addr);
            let next = followed(t.fixed_only, successors(rom, bank, t.work.last()));
            assert((rest + next)[w] == addr);
        }
    }
}

proof fn lemma_descent(s: Search, rom: Seq<u8>, bank: u16, n: nat)
    requires
        !s.truncated,
        !s.after(rom, bank, n).truncated,
    ensures
        ({
            let t = s.after(rom, bank, n);
            &&& forall|a: u16| #[trigger] s.work.contains(a) ==> seen_to(t, bank, a)
            &&& forall|k: BlockKey, a: u16|
                t.found.contains(k) && !s.found.contains(k) && #[trigger] successors(
                    rom,
                    bank,
                    k.addr,
                ).contains(a) ==> seen_to(t, bank, a)
        }),
    decreases n,
{
    if n > 0 {
        let r = s.after(rom, bank, (n - 1) as nat);
        let t = r.step(rom, bank);
        lemma_descent(s, rom, bank, (n - 1) as nat);
        assert forall|a: u16| #[trigger] s.work.contains(a) implies seen_to(t, bank, a) by {
            lemma_step_keeps(r, rom, bank, a);
        }
        assert forall|k: BlockKey, a: u16|
            t.found.contains(k) && !s.found.contains(k) && #[trigger] successors(
                rom,
                bank,
                k.addr,
            ).contains(a) implies seen_to(t, bank, a) by {
            if r.found.contains(k) {
                lemma_step_keeps(r, rom, bank, a);
            } else {
                let addr = r.work.last();
                assert(k == key_at(bank, addr));
                let next = successors(rom, bank, addr);
                let onward = followed(r.fixed_only, next);
                lemma_followed(r.fixed_only, next, a);
                if in_reach(r.fixed_only, a) {
                    let w = choose|w: int| 0 <= w < onward.len() && onward[w] == a;
                    let rest = r.work.drop_last();
                    assert((rest + onward)[rest.len() + w] == a);
                }
            }
        }
    }
}

/// A descent that was not cut short is complete: every entry point in its reach
/// has been found, and so has every address in its reach that a block found by
/// the descent names as a way on.
pub proof fn law_descent_complete(s: Search, rom: Seq<u8>, bank: u16, n: nat)
    requires
        !s.truncated,
        s.after(rom, bank, n).halted(),
        !s.after(rom, bank, n).truncated,
    ensures
        ({
            let t = s.settled(rom, bank);
            &&& forall|a: u16| #[trigger]
                s.work.contains(a) && in_reach(s.fixed_only, a) ==> t.found.contains(
                    key_at(bank, a),
                )
            &&& forall|k: BlockKey, a: u16|
                t.found.contains(k) && !s.found.contains(k) && #[trigger] successors(
                    rom,
                    bank,
                    k.addr,
                ).contains(a) && in_reach(s.fixed_only, a) ==> t.found.contains(key_at(bank, a))
        }),
{
    lemma_settled(s, rom, bank, n);
    lemma_descent(s, rom, bank, n);
    lemma_found_grows(s, rom, bank, n);
}

/// A descent adds no more blocks than its budget.
pub proof fn law_descent_budget(s: Search, rom: Seq<u8>, bank: u16, n: nat)
    requires
        !s.truncated,
        s.after(rom, bank, n).halted(),
        s.found.finite(),
    ensures
        s.found.subset_of(s.settled(rom, bank).found),
        s.settled(rom, bank).found.len() <= s.found.len() + s.budget,
{
    lemma_settled(s, rom, bank, n);
    lemma_found_grows(s, rom, bank, n);
}

} // verus!
