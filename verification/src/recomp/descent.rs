//! What discovery promises of a whole cartridge: it comes to an end, it misses nothing that
//! it can see, and it keeps to its budget.
use vstd::prelude::*;
use crate::recomp::discover;
use crate::recomp::discover::{Pass, Report, Search, ENTRY_POINTS};
use crate::recomp::exec::BlockKey;
use crate::recomp::program;

verus! {

proof fn lemma_step_first(s: Search, rom: Seq<u8>, bank: u16, n: nat)
    ensures
        s.step(rom, bank).after(rom, bank, n) == s.after(rom, bank, n + 1),
    decreases n,
{
    if n == 0 {
        assert(s.after(rom, bank, 0) == s);
        assert(s.after(rom, bank, 1) == s.after(rom, bank, 0).step(rom, bank));
    } else {
        lemma_step_first(s, rom, bank, (n - 1) as nat);
    }
}

proof fn lemma_halts(s: Search, rom: Seq<u8>, bank: u16) -> (n: nat)
    ensures
        s.after(rom, bank, n).halted(),
    decreases s.budget, s.work.len(),
{
    if s.halted() {
        assert(s.after(rom, bank, 0) == s);
        0
    } else {
        let t = s.step(rom, bank);
        let m = if t.truncated {
            assert(t.after(rom, bank, 0) == t);
            0
        } else {
            lemma_halts(t, rom, bank)
        };
        lemma_step_first(s, rom, bank, m);
        m + 1
    }
}

/// Every descent comes to rest, whatever the cartridge holds.
pub proof fn law_descent_halts(s: Search, rom: Seq<u8>, bank: u16)
    ensures
        s.settled(rom, bank).halted(),
{
    let n = lemma_halts(s, rom, bank);
    discover::lemma_settled(s, rom, bank, n);
}

/// What trying one bank adds.
proof fn lemma_bank_grows(p: Pass, rom: Seq<u8>, bank: u16, seeds: Seq<u16>, per_bank: nat)
    requires
        p.found.finite(),
    ensures
        ({
            let q = p.bank(rom, bank, seeds, per_bank);
            &&& p.found.subset_of(q.found)
            &&& q.found.finite()
            &&& p.truncated ==> q.truncated
            &&& q.found.len() + q.remaining == p.found.len() + p.remaining
        }),
{
    let work = discover::viable(rom, bank, seeds);
    if !p.truncated && per_bank != 0 && work.len() != 0 {
        let s = Search {
            work,
            found: p.found,
            shared: Set::empty(),
            budget: if per_bank <= p.remaining {
                per_bank
            } else {
                p.remaining
            },
            fixed_only: false,
            truncated: false,
        };
        let n = lemma_halts(s, rom, bank);
        discover::lemma_settled(s, rom, bank, n);
        discover::lemma_found_grows(s, rom, bank, n);
    }
}

/// What trying the banks adds.
proof fn lemma_banks_grow(p: Pass, rom: Seq<u8>, end: int, seeds: Seq<u16>, per_bank: nat)
    requires
        p.found.finite(),
    ensures
        ({
            let q = p.banks(rom, end, seeds, per_bank);
            &&& p.found.subset_of(q.found)
            &&& q.found.finite()
            &&& p.truncated ==> q.truncated
            &&& q.found.len() + q.remaining == p.found.len() + p.remaining
            &&& per_bank == 0 ==> q == p
        }),
    decreases end,
{
    if end > 1 {
        lemma_banks_grow(p, rom, end - 1, seeds, per_bank);
        lemma_bank_grows(
            p.banks(rom, end - 1, seeds, per_bank),
            rom,
            (end - 1) as u16,
            seeds,
            per_bank,
        );
    }
}

/// The descent that every discovery starts with.
spec fn begun(budget: nat, fixed_only: bool) -> Search {
    Search {
        work: ENTRY_POINTS@,
        found: Set::empty(),
        shared: Set::empty(),
        budget,
        fixed_only,
        truncated: false,
    }
}

/// What a report lists, by the passes that made it.
proof fn lemma_report(report: Report, rom: Seq<u8>, budget: nat, per_bank: nat) -> (n: nat)
    requires
        discover::reports(report, rom, budget, per_bank),
    ensures
        ({
            let s = begun(budget, per_bank == 0);
            let first = discover::first_descent(rom, budget, per_bank == 0);
            let blocks = report.blocks@.to_set();
            &&& s.after(rom, 1, n).halted()
            &&& s.after(rom, 1, n) == first
            &&& first.found.subset_of(blocks)
            &&& first.truncated ==> report.truncated
            &&& blocks.finite()
            &&& blocks.len() <= budget
            &&& per_bank == 0 ==> blocks == first.found && report.truncated == first.truncated
            &&& per_bank == 0 ==> forall|k: BlockKey| #[trigger]
                blocks.contains(k) ==> k.bank == 0 && k.addr < 0x4000
        }),
{
    let s = begun(budget, per_bank == 0);
    let n = lemma_halts(s, rom, 1);
    discover::lemma_settled(s, rom, 1, n);
    discover::lemma_found_grows(s, rom, 1, n);
    let first = discover::first_descent(rom, budget, per_bank == 0);
    let seeds = choose|seeds: Seq<u16>| #[trigger]
        discover::in_order(seeds, first.shared) && {
            let pass = discover::discovered(rom, budget, per_bank, seeds);
            &&& report.blocks@.to_set() == pass.found
            &&& report.truncated == pass.truncated
        };
    let start = Pass { found: first.found, remaining: first.budget, truncated: first.truncated };
    lemma_banks_grow(start, rom, discover::bank_count(rom), seeds, per_bank);
    n
}

/// A report that was not cut short misses nothing in the fixed window: it lists every
/// entry point that the hardware has, and with every block of the first descent each
/// address in that descent's reach that the block names as a way on. When no other bank is
/// tried, it lists nothing else.
pub proof fn law_report_is_complete(report: Report, rom: Seq<u8>, budget: nat, per_bank: nat)
    requires
        discover::reports(report, rom, budget, per_bank),
        !report.truncated,
    ensures
        ({
            let first = discover::first_descent(rom, budget, per_bank == 0);
            let blocks = report.blocks@.to_set();
            &&& forall|a: u16| #[trigger]
                ENTRY_POINTS@.contains(a) ==> blocks.contains(BlockKey { bank: 0, addr: a })
            &&& first.found.subset_of(blocks)
            &&& forall|k: BlockKey, a: u16|
                first.found.contains(k) && #[trigger] discover::successors(
                    rom,
                    1,
                    k.addr,
                ).contains(a) && discover::in_reach(per_bank == 0, a) ==> blocks.contains(
                    discover::key_at(1, a),
                )
            &&& per_bank == 0 ==> blocks == first.found
        }),
{
    let s = begun(budget, per_bank == 0);
    let n = lemma_report(report, rom, budget, per_bank);
    let first = discover::first_descent(rom, budget, per_bank == 0);
    discover::law_descent_complete(s, rom, 1, n);
    let blocks = report.blocks@.to_set();
    assert(s.settled(rom, 1) == first);
    assert forall|a: u16| #[trigger] ENTRY_POINTS@.contains(a) implies blocks.contains(
        BlockKey { bank: 0, addr: a },
    ) by {
        assert(s.work.contains(a));
        assert(program::region_of(a) == 0);
        assert(first.found.contains(discover::key_at(1, a)));
    }
    assert forall|k: BlockKey, a: u16|
        first.found.contains(k) && #[trigger] discover::successors(rom, 1, k.addr).contains(a)
            && discover::in_reach(per_bank == 0, a) implies blocks.contains(
        discover::key_at(1, a),
    ) by {
        assert(!s.found.contains(k));
        assert(first.found.contains(discover::key_at(1, a)));
    }
}

/// A report lists no more blocks than the budget allows.
pub proof fn law_report_keeps_to_budget(report: Report, rom: Seq<u8>, budget: nat, per_bank: nat)
    requires
        discover::reports(report, rom, budget, per_bank),
    ensures
        report.blocks@.len() <= budget,
{
    let n = lemma_report(report, rom, budget, per_bank);
    assert(report.blocks@.no_duplicates());
    report.blocks@.unique_seq_to_set();
}

/// With no allowance for the banks, a report keeps to the fixed window.
pub proof fn law_report_keeps_to_fixed_window(report: Report, rom: Seq<u8>, budget: nat)
    requires
        discover::reports(report, rom, budget, 0),
    ensures
        forall|i: int|
            0 <= i < report.blocks@.len() ==> (#[trigger] report.blocks@[i]).bank == 0
                && report.blocks@[i].addr < 0x4000,
{
    let n = lemma_report(report, rom, budget, 0);
    assert forall|i: int| 0 <= i < report.blocks@.len() implies (
    #[trigger] report.blocks@[i]).bank == 0 && report.blocks@[i].addr < 0x4000 by {
        assert(report.blocks@.to_set().contains(report.blocks@[i]));
    }
}

/// A descent is only cut short when its budget is used up.
proof fn lemma_cut_short(s: Search, rom: Seq<u8>, bank: u16, n: nat)
    requires
        !s.truncated,
    ensures
        s.after(rom, bank, n).truncated ==> s.after(rom, bank, n).budget == 0,
    decreases n,
{
    if n > 0 {
        lemma_cut_short(s, rom, bank, (n - 1) as nat);
    }
}

/// One bank tried: everything there that is to be tried and looks like code is found, unless
/// the bank's allowance is used up.
proof fn lemma_bank_tried(
    p: Pass,
    rom: Seq<u8>,
    bank: u16,
    seeds: Seq<u16>,
    per_bank: nat,
    a: u16,
)
    requires
        !p.truncated,
        per_bank > 0,
        discover::viable(rom, bank, seeds).contains(a),
        0x4000 <= a < 0x8000,
    ensures
        ({
            let q = p.bank(rom, bank, seeds, per_bank);
            ||| q.found.contains(BlockKey { bank, addr: a })
            ||| p.remaining - q.remaining == per_bank
            ||| q.remaining == 0
        }),
{
    let work = discover::viable(rom, bank, seeds);
    let s = Search {
        work,
        found: p.found,
        shared: Set::empty(),
        budget: if per_bank <= p.remaining {
            per_bank
        } else {
            p.remaining
        },
        fixed_only: false,
        truncated: false,
    };
    assert(work.len() > 0);
    let n = lemma_halts(s, rom, bank);
    discover::lemma_settled(s, rom, bank, n);
    lemma_cut_short(s, rom, bank, n);
    if !s.after(rom, bank, n).truncated {
        discover::law_descent_complete(s, rom, bank, n);
        assert(s.work.contains(a) && discover::in_reach(s.fixed_only, a));
        assert(discover::key_at(bank, a) == (BlockKey { bank, addr: a }));
    }
}

/// Every switchable bank is tried: from bank 1 to the last, each address that some bank calls
/// into and that looks like code there is found in that bank, unless what is allowed for one
/// bank, or for all of them, was used up first.
pub proof fn law_every_bank_is_tried(
    p: Pass,
    rom: Seq<u8>,
    end: int,
    seeds: Seq<u16>,
    per_bank: nat,
    bank: u16,
    a: u16,
)
    requires
        p.found.finite(),
        per_bank > 0,
        1 <= bank < end <= 0x1_0000,
        seeds.contains(a),
        0x4000 <= a < 0x8000,
        discover::reads_as_code(discover::rom_image(rom, bank), a, a, 0),
        !p.banks(rom, end, seeds, per_bank).truncated,
    ensures
        ({
            let before = p.banks(rom, bank as int, seeds, per_bank);
            let after = p.banks(rom, bank + 1, seeds, per_bank);
            let q = p.banks(rom, end, seeds, per_bank);
            ||| q.found.contains(BlockKey { bank, addr: a })
            ||| before.remaining - after.remaining == per_bank
            ||| after.remaining == 0
        }),
    decreases end,
{
    lemma_banks_grow(p, rom, end - 1, seeds, per_bank);
    let so_far = p.banks(rom, end - 1, seeds, per_bank);
    lemma_bank_grows(so_far, rom, (end - 1) as u16, seeds, per_bank);
    if bank == end - 1 {
        crate::recomp::charting::law_tried(rom, bank, seeds, a);
        lemma_bank_tried(so_far, rom, bank, seeds, per_bank, a);
    } else {
        law_every_bank_is_tried(p, rom, end - 1, seeds, per_bank, bank, a);
    }
}

} // verus!
