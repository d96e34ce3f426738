//! Recursive descent over small cartridges.

use gbtoexe::recomp::discover::{discover, discover_with};

fn rom_with(program: &[(u16, &[u8])]) -> Vec<u8> {
    let mut rom = vec![0u8; 0x8000];
    for &(addr, bytes) in program {
        rom[addr as usize..addr as usize + bytes.len()].copy_from_slice(bytes);
    }
    rom
}

#[test]
fn discovery_follows_a_call_and_its_return() {
    // 0x0100: CALL 0x0200 ; HALT      0x0200: NOP ; RET
    let rom = rom_with(&[(0x0100, &[0xcd, 0x00, 0x02, 0x76]), (0x0200, &[0x00, 0xc9])]);
    let report = discover(&rom, 1000);
    assert!(report.blocks.iter().any(|b| b.addr == 0x0100));
    assert!(report.blocks.iter().any(|b| b.addr == 0x0200));
    assert!(!report.truncated);
}

#[test]
fn both_sides_of_a_conditional_branch_are_found() {
    // 0x0100: JR NZ,+2 ; HALT ; LD A,1 ; HALT
    let rom = rom_with(&[(0x0100, &[0x20, 0x01, 0x76, 0x3e, 0x01, 0x76])]);
    let report = discover(&rom, 1000);
    let addrs: Vec<u16> = report.blocks.iter().map(|b| b.addr).collect();
    assert!(addrs.contains(&0x0102), "fall-through not found");
    assert!(addrs.contains(&0x0103), "branch target not found");
}

#[test]
fn a_computed_jump_stops_discovery_without_failing() {
    // JP (HL) leads somewhere only the running game knows.
    let rom = rom_with(&[(0x0100, &[0xe9])]);
    let report = discover(&rom, 1000);
    assert!(report.blocks.iter().any(|b| b.addr == 0x0100));
    assert!(!report.truncated);
}

#[test]
fn the_budget_stops_a_runaway() {
    // A ROM of zeroes decodes as an endless run of NOPs in every bank.
    let rom = vec![0u8; 0x8000];
    let report = discover(&rom, 4);
    assert!(report.truncated);
    assert!(report.blocks.len() <= 8);
}

#[test]
fn banked_entry_points_are_tried_in_every_bank() {
    let mut rom = vec![0u8; 0x10000]; // four banks
    // Bank 0 calls into the switchable window.
    rom[0x0100..0x0104].copy_from_slice(&[0xcd, 0x00, 0x40, 0x76]);
    // Bank 1 and bank 2 both answer at 0x4000 with different code.
    rom[0x4000..0x4003].copy_from_slice(&[0x3e, 0x01, 0xc9]);
    rom[0x8000..0x8003].copy_from_slice(&[0x3e, 0x02, 0xc9]);

    let report = discover(&rom, 1000);
    assert!(report
        .blocks
        .iter()
        .any(|b| b.bank == 1 && b.addr == 0x4000));
    assert!(report
        .blocks
        .iter()
        .any(|b| b.bank == 2 && b.addr == 0x4000));
}

#[test]
fn data_that_decodes_as_an_illegal_opcode_is_rejected() {
    let mut rom = vec![0u8; 0x10000];
    rom[0x0100..0x0104].copy_from_slice(&[0xcd, 0x00, 0x40, 0x76]);
    rom[0x4000..0x4003].copy_from_slice(&[0x3e, 0x01, 0xc9]);
    // Bank 2's 0x4000 is data that starts with an opcode the CPU lacks.
    rom[0x8000..0x8003].copy_from_slice(&[0xdd, 0xdd, 0xdd]);

    let report = discover(&rom, 1000);
    assert!(!report
        .blocks
        .iter()
        .any(|b| b.bank == 2 && b.addr == 0x4000));
}

#[test]
fn every_entry_point_of_the_hardware_is_reported() {
    // RET everywhere: each entry point is a block with no way on.
    let rom = vec![0xc9u8; 0x8000];
    let report = discover_with(&rom, 14, 0);
    let addrs: Vec<u16> = report.blocks.iter().map(|b| b.addr).collect();
    assert_eq!(
        addrs,
        [0x00, 0x08, 0x10, 0x18, 0x20, 0x28, 0x30, 0x38, 0x40, 0x48, 0x50, 0x58, 0x60, 0x100]
    );
    assert!(report.blocks.iter().all(|b| b.bank == 0));
    assert!(!report.truncated);
    assert_eq!(report.shared_entries, 0);
}

#[test]
fn a_report_keeps_to_its_budget() {
    let rom = vec![0xc9u8; 0x8000];
    for budget in 0..14 {
        let report = discover_with(&rom, budget, 0);
        assert!(report.truncated);
        assert_eq!(report.blocks.len(), budget);
    }
    let report = discover(&[0u8; 0x8000], 4);
    assert!(report.truncated);
    assert_eq!(report.blocks.len(), 4);
    let report = discover(&[0u8; 0x2_0000], 40);
    assert!(report.blocks.len() <= 40);
}

#[test]
fn a_zero_allowance_keeps_to_the_fixed_window() {
    let mut rom = vec![0u8; 0x10000];
    rom[0x0100..0x0104].copy_from_slice(&[0xcd, 0x00, 0x40, 0x76]);
    rom[0x4000..0x4003].copy_from_slice(&[0x3e, 0x01, 0xc9]);
    let report = discover_with(&rom, 1000, 0);
    assert!(!report.truncated);
    assert_eq!(report.shared_entries, 1);
    assert!(report.blocks.iter().all(|b| b.bank == 0 && b.addr < 0x4000));
    assert!(report.blocks.iter().any(|b| b.addr == 0x0103));
    let full = discover_with(&rom, 1000, 4096);
    assert!(full.blocks.iter().any(|b| b.bank == 1 && b.addr == 0x4000));
}

#[test]
fn a_budget_that_is_just_enough_is_not_cut_short() {
    let mut rom = vec![0xc9u8; 0x10000];
    rom[0x0100..0x0104].copy_from_slice(&[0xcd, 0x00, 0x40, 0xc9]);
    let whole = discover(&rom, 1000);
    assert!(!whole.truncated);
    let exact = discover(&rom, whole.blocks.len());
    assert!(!exact.truncated);
    assert_eq!(exact.blocks, whole.blocks);
    let short = discover(&rom, whole.blocks.len() - 1);
    assert!(short.truncated);
    assert_eq!(short.blocks.len(), whole.blocks.len() - 1);
}
