//! Where a cartridge's code can be found: what the search takes for a way on is where the
//! game can really go.
use vstd::prelude::*;
use crate::hw::cartridge::Board;
use crate::recomp::bus::{Hardware, World};
use crate::recomp::decode;
use crate::recomp::decode::Flow;
use crate::recomp::discover;
use crate::recomp::manual;
use crate::recomp::program;
use crate::recomp::sm83;

verus! {

/// Where the hardware itself starts code: at 0x100, and at every eighth address up to 0x60,
/// which are the restarts and the interrupts.
pub proof fn law_entry_points(a: u16)
    ensures
        discover::ENTRY_POINTS@.contains(a) <==> a == 0x100 || a % 8 == 0 && a <= 0x60,
{
    let s = discover::ENTRY_POINTS@;
    assert(s.len() == 14);
    assert(s[0] == 0x100 && s[1] == 0 && s[2] == 8 && s[3] == 0x10 && s[4] == 0x18 && s[5] == 0x20
        && s[6] == 0x28 && s[7] == 0x30 && s[8] == 0x38 && s[9] == 0x40 && s[10] == 0x48 && s[11]
        == 0x50 && s[12] == 0x58 && s[13] == 0x60);
    if a == 0x100 {
        assert(s.contains(s[0]));
    }
    if a % 8 == 0 && a <= 0x60 {
        assert(s[a as int / 8 + 1] == a);
    }
}

/// The parts of the address space: the fixed bank, the switchable bank and the rest.
pub proof fn law_regions(a: u16, b: u16)
    ensures
        program::region_of(a) == 0 <==> a < 0x4000,
        program::region_of(a) == 1 <==> 0x4000 <= a < 0x8000,
        discover::in_reach(true, a) <==> a < 0x4000,
        discover::in_reach(false, a) <==> a < 0x8000,
{
}

/// Whatever the flags are, a jump, call or restart takes the game to one of the addresses
/// that are followed.
pub proof fn law_goes_where_followed(
    hw: Hardware,
    mem: spec_fn(u16) -> u8,
    addr: u16,
    w: World,
)
    requires
        decode::insn_at(mem, addr).flow is Jump || decode::insn_at(mem, addr).flow is Call
            || decode::insn_at(mem, addr).flow is Rst,
    ensures
        discover::ways_on(decode::insn_at(mem, addr)).contains(
            sm83::control(hw, w, decode::insn_at(mem, addr)).st.pc,
        ),
{
    let insn = decode::insn_at(mem, addr);
    let ways = discover::ways_on(insn);
    let pc = sm83::control(hw, w, insn).st.pc;
    assert(ways.len() > 0);
    assert(pc == ways[0] || ways.len() == 2 && pc == ways[1]);
    if pc == ways[0] {
        assert(ways.contains(ways[0]));
    } else {
        assert(ways.contains(ways[1]));
    }
}

/// What is followed from an instruction: where it jumps or calls to, if that is written in
/// it, and what comes after it, unless it always leaves.
#[verifier::rlimit(40)]
pub proof fn law_followed(mem: spec_fn(u16) -> u8, addr: u16, to: u16)
    ensures
        ({
            let op = mem(addr);
            let ways = discover::ways_on(decode::insn_at(mem, addr));
            let next = (addr + decode::LENGTHS@[op as int]) % 0x1_0000;
            let near = op == 0x18 || op == 0x20 || op == 0x28 || op == 0x30 || op == 0x38;
            let far = op == 0xc3 || op == 0xc2 || op == 0xca || op == 0xd2 || op == 0xda || op
                == 0xcd || op == 0xc4 || op == 0xcc || op == 0xd4 || op == 0xdc;
            let restart = op >= 0xc7 && op % 8 == 7;
            let leaves = op == 0x18 || op == 0xc3 || op == 0xc9 || op == 0xd9 || op == 0xe9 || op
                == 0xd3 || op == 0xdb || op == 0xdd || op == 0xe3 || op == 0xe4 || op == 0xeb || op
                == 0xec || op == 0xed || op == 0xf4 || op == 0xfc || op == 0xfd;
            ways.contains(to) <==> near && to == manual::jump_relative(mem, addr) || far && to
                == manual::word_behind(mem, addr) || restart && to == op - 0xc7 || !leaves && to
                == next
        }),
{
    manual::law_length(mem(addr));
    let insn = decode::insn_at(mem, addr);
    let ways = discover::ways_on(insn);
    if ways.len() > 0 {
        assert(ways.contains(ways[0]));
    }
    if ways.len() > 1 {
        assert(ways.contains(ways[1]));
    }
}

/// What the search reads of a bank is what the game reads while that bank is shown.
pub proof fn law_reads_the_cartridge(board: Board, addr: u16)
    requires
        board.wf(),
        addr < 0x8000,
        board.bank_at(0) == 0,
    ensures
        discover::rom_byte(board.rom, board.bank_at(addr), addr) == board.rom_byte(addr),
{
    crate::hw::cartridge::law_rom_window(board, addr);
    crate::hw::cartridge::law_bank_fits_its_key(board);
}

/// The address of instruction number `k` of the straight run at `a`.
pub open spec fn stride(mem: spec_fn(u16) -> u8, a: u16, k: nat) -> u16
    decreases k,
{
    if k == 0 {
        a
    } else {
        let before = stride(mem, a, (k - 1) as nat);
        ((before + decode::LENGTHS@[mem(before) as int]) % 0x1_0000) as u16
    }
}

/// A run of instructions that stays in its region until one that jumps, calls, returns or
/// halts is taken for code if that one is among the first 32, and not if it comes later; a
/// run into an opcode that does not exist, or into STOP, never is.
pub proof fn law_looks_like_code(mem: spec_fn(u16) -> u8, a: u16, k: nat)
    requires
        forall|j: nat|
            j < k ==> decode::insn_at(mem, #[trigger] stride(mem, a, j)).flow is Normal,
        forall|j: nat|
            0 < j <= k ==> program::region_of(#[trigger] stride(mem, a, j)) == program::region_of(
                a,
            ),
        !(decode::insn_at(mem, stride(mem, a, k)).flow is Normal),
    ensures
        discover::reads_as_code(mem, a, a, 0) <==> k < 32 && !(decode::insn_at(
            mem,
            stride(mem, a, k),
        ).flow is Illegal) && !(decode::insn_at(mem, stride(mem, a, k)).flow is Stop),
{
    lemma_looks_like_code(mem, a, k, 0);
}

proof fn lemma_looks_like_code(mem: spec_fn(u16) -> u8, a: u16, k: nat, from: nat)
    requires
        from <= k,
        from <= 32,
        forall|j: nat|
            j < k ==> decode::insn_at(mem, #[trigger] stride(mem, a, j)).flow is Normal,
        forall|j: nat|
            0 < j <= k ==> program::region_of(#[trigger] stride(mem, a, j)) == program::region_of(
                a,
            ),
        !(decode::insn_at(mem, stride(mem, a, k)).flow is Normal),
    ensures
        discover::reads_as_code(mem, a, stride(mem, a, from), from) <==> k < 32
            && !(decode::insn_at(mem, stride(mem, a, k)).flow is Illegal) && !(decode::insn_at(
            mem,
            stride(mem, a, k),
        ).flow is Stop),
    decreases 32 - from,
{
    let pc = stride(mem, a, from);
    if from < 32 && from < k {
        assert(decode::insn_at(mem, pc).flow is Normal);
        let next = stride(mem, a, from + 1);
        assert(next == decode::next_addr(decode::insn_at(mem, pc)));
        assert(program::region_of(next) == program::region_of(a));
        lemma_looks_like_code(mem, a, k, from + 1);
    }
}

/// An address in the switchable window that some bank calls into is tried in another exactly
/// where the bytes there look like code.
pub proof fn law_tried(rom: Seq<u8>, bank: u16, seeds: Seq<u16>, a: u16)
    ensures
        discover::viable(rom, bank, seeds).contains(a) <==> seeds.contains(a)
            && discover::reads_as_code(discover::rom_image(rom, bank), a, a, 0),
    decreases seeds.len(),
{
    if seeds.len() > 0 {
        let fewer = seeds.drop_last();
        let before = discover::viable(rom, bank, fewer);
        law_tried(rom, bank, fewer, a);
        let after = discover::viable(rom, bank, seeds);
        let last = seeds.last();
        if seeds.contains(a) && a != last {
            let i = seeds.index_of(a);
            assert(fewer[i] == a);
        }
        if fewer.contains(a) {
            assert(seeds[fewer.index_of(a)] == a);
        }
        assert(seeds[seeds.len() - 1] == last);
        if discover::reads_as_code(discover::rom_image(rom, bank), last, last, 0) {
            assert(after == before.push(last));
            assert(after[before.len() as int] == last);
            if before.contains(a) {
                assert(after[before.index_of(a)] == a);
            }
            if after.contains(a) && a != last {
                assert(before[after.index_of(a)] == a);
            }
        }
    }
}

/// The addresses of the switchable window among those that a block leads to are remembered,
/// and no others.
pub proof fn law_shared(shared: Set<u16>, targets: Seq<u16>, a: u16)
    ensures
        discover::add_shared(shared, targets).contains(a) <==> shared.contains(a)
            || targets.contains(a) && 0x4000 <= a < 0x8000,
    decreases targets.len(),
{
    if targets.len() > 0 {
        let fewer = targets.drop_last();
        law_shared(shared, fewer, a);
        if targets.contains(a) && a != targets.last() {
            assert(fewer[targets.index_of(a)] == a);
        }
        if fewer.contains(a) {
            assert(targets[fewer.index_of(a)] == a);
        }
        assert(targets[targets.len() - 1] == targets.last());
    }
}

/// A block in the fixed window is the same block whatever bank is selected; one in the
/// switchable window belongs to its bank.
pub proof fn law_keys(bank: u16, other: u16, a: u16)
    ensures
        a < 0x4000 ==> discover::key_at(bank, a) == discover::key_at(other, a),
        a >= 0x4000 && bank != other ==> discover::key_at(bank, a) != discover::key_at(other, a),
        discover::key_at(bank, a).addr == a,
{
}

/// Where a block leads: a straight run that stays in its region up to an instruction that
/// ends it leads where that one does; one whose next instruction lies in another region leads
/// there.
pub proof fn law_successors(rom: Seq<u8>, bank: u16, a: u16, k: nat)
    requires
        k < 2048,
        forall|j: nat|
            j < k ==> decode::insn_at(
                discover::rom_image(rom, bank),
                #[trigger] stride(discover::rom_image(rom, bank), a, j),
            ).flow is Normal,
        forall|j: nat|
            0 < j <= k ==> program::region_of(
                #[trigger] stride(discover::rom_image(rom, bank), a, j),
            ) == program::region_of(a),
    ensures
        ({
            let mem = discover::rom_image(rom, bank);
            let last = decode::insn_at(mem, stride(mem, a, k));
            let next = stride(mem, a, k + 1);
            &&& !(last.flow is Normal) ==> discover::successors(rom, bank, a)
                == discover::ways_on(last)
            &&& last.flow is Normal && program::region_of(next) != program::region_of(a)
                ==> discover::successors(rom, bank, a) == seq![next]
        }),
{
    lemma_successors(discover::rom_image(rom, bank), a, k, 0);
}

proof fn lemma_successors(mem: spec_fn(u16) -> u8, a: u16, k: nat, from: nat)
    requires
        from <= k < 2048,
        forall|j: nat|
            j < k ==> decode::insn_at(mem, #[trigger] stride(mem, a, j)).flow is Normal,
        forall|j: nat|
            0 < j <= k ==> program::region_of(#[trigger] stride(mem, a, j)) == program::region_of(
                a,
            ),
    ensures
        ({
            let last = decode::insn_at(mem, stride(mem, a, k));
            let next = stride(mem, a, k + 1);
            let ways = discover::scan(mem, a, stride(mem, a, from), from).1;
            &&& !(last.flow is Normal) ==> ways == discover::ways_on(last)
            &&& last.flow is Normal && program::region_of(next) != program::region_of(a) ==> ways
                == seq![next]
        }),
    decreases k - from,
{
    let pc = stride(mem, a, from);
    let next = stride(mem, a, from + 1);
    assert(next == decode::next_addr(decode::insn_at(mem, pc)));
    if from < k {
        assert(decode::insn_at(mem, pc).flow is Normal);
        assert(program::region_of(next) == program::region_of(a));
        lemma_successors(mem, a, k, from + 1);
    }
}

/// How many banks are searched: one for every 16 KiB of the file, and two at the least.
pub proof fn law_banks_searched(rom: Seq<u8>)
    requires
        rom.len() < 0x4000_0000,
    ensures
        discover::bank_count(rom) == if rom.len() < 0x8000 {
            2
        } else {
            rom.len() as int / 0x4000
        },
{
}

} // verus!
