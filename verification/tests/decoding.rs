//! The instruction decoder on known encodings.

use gbtoexe::recomp::decode::{decode, is_illegal, Flow, Insn, LENGTHS};

fn at(bytes: &[u8]) -> Insn {
    let owned = bytes.to_vec();
    decode(0x1000, &move |a: u16| {
        owned.get((a - 0x1000) as usize).copied().unwrap_or(0)
    })
}

#[test]
fn nop_is_one_byte_and_falls_through() {
    let insn = at(&[0x00]);
    assert_eq!(insn.len, 1);
    assert_eq!(insn.flow, Flow::Normal);
}

#[test]
fn absolute_jump_target_is_read_little_endian() {
    let insn = at(&[0xc3, 0x50, 0x01]);
    assert_eq!(insn.len, 3);
    assert_eq!(
        insn.flow,
        Flow::Jump {
            target: 0x0150,
            conditional: false
        }
    );
}

#[test]
fn relative_jump_is_measured_from_the_next_instruction() {
    // JR -2 at 0x1000 is the classic one-instruction spin loop.
    let insn = at(&[0x18, 0xfe]);
    assert_eq!(
        insn.flow,
        Flow::Jump {
            target: 0x1000,
            conditional: false
        }
    );
}

#[test]
fn conditional_forms_are_marked_conditional() {
    assert!(matches!(
        at(&[0x28, 0x05]).flow,
        Flow::Jump {
            conditional: true,
            ..
        }
    ));
    assert!(matches!(
        at(&[0xc4, 0, 0]).flow,
        Flow::Call {
            conditional: true,
            ..
        }
    ));
    assert!(matches!(
        at(&[0xc0]).flow,
        Flow::Ret {
            conditional: true,
            ..
        }
    ));
}

#[test]
fn rst_targets_its_vector() {
    assert_eq!(at(&[0xff]).flow, Flow::Rst { target: 0x38 });
    assert_eq!(at(&[0xc7]).flow, Flow::Rst { target: 0x00 });
}

#[test]
fn cb_prefixed_instructions_carry_their_second_byte() {
    let insn = at(&[0xcb, 0x7f]);
    assert_eq!(insn.len, 2);
    assert_eq!(insn.cb, 0x7f);
}

#[test]
fn unimplemented_opcodes_are_flagged() {
    assert_eq!(at(&[0xdd]).flow, Flow::Illegal);
    assert!(is_illegal(0xed));
}

#[test]
fn every_opcode_has_a_plausible_length() {
    for (op, &len) in LENGTHS.iter().enumerate() {
        assert!((1..=3).contains(&len), "opcode {op:#04x} has length {len}");
    }
}
