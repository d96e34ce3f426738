//! A small x86-64 encoder: only the forms the translator emits.
//!
//! Everything produced here is position-independent. Machine state lives at
//! `[rbp + offset]` and host services are reached through a function table at
//! `[rbp + helper offset]`, so a finished block runs wherever it is placed.
//!
//! [`Op`] is one instruction as data and [`Op::encode`] is the bytes it is made
//! of; every method of [`Asm`] appends the encoding of one `Op`.

use vstd::prelude::*;
use crate::bytes;
use crate::bytes::{push_all, push_le16, push_le32, push_le64, put_le32};

verus! {

/// Register numbers, matching the hardware encoding.
pub const RAX: u8 = 0;

pub const RCX: u8 = 1;

pub const RDX: u8 = 2;

pub const RBX: u8 = 3;

pub const RSP: u8 = 4;

/// Pinned: points at the machine state the whole time translated code runs.
pub const RBP: u8 = 5;

pub const R8: u8 = 8;

pub const R9: u8 = 9;

pub const R10: u8 = 10;

pub const R11: u8 = 11;

#[derive(Clone, Copy, PartialEq, Eq, Structural)]
pub enum Alu {
    Add,
    Or,
    Adc,
    Sbb,
    And,
    Sub,
    Xor,
    Cmp,
}

impl Alu {
    /// The operation number in the opcode map.
    #[verifier::allow_in_spec]
    pub fn code(self) -> u8
        returns
            (match self {
                Alu::Add => 0u8,
                Alu::Or => 1u8,
                Alu::Adc => 2u8,
                Alu::Sbb => 3u8,
                Alu::And => 4u8,
                Alu::Sub => 5u8,
                Alu::Xor => 6u8,
                Alu::Cmp => 7u8,
            }),
    {
        match self {
            Alu::Add => 0,
            Alu::Or => 1,
            Alu::Adc => 2,
            Alu::Sbb => 3,
            Alu::And => 4,
            Alu::Sub => 5,
            Alu::Xor => 6,
            Alu::Cmp => 7,
        }
    }
}

#[derive(Clone, Copy, PartialEq, Eq, Structural)]
pub enum Shift {
    Rol,
    Ror,
    Shl,
    Shr,
    Sar,
}

impl Shift {
    /// The operation number in the opcode map.
    #[verifier::allow_in_spec]
    pub fn code(self) -> u8
        returns
            (match self {
                Shift::Rol => 0u8,
                Shift::Ror => 1u8,
                Shift::Shl => 4u8,
                Shift::Shr => 5u8,
                Shift::Sar => 7u8,
            }),
    {
        match self {
            Shift::Rol => 0,
            Shift::Ror => 1,
            Shift::Shl => 4,
            Shift::Shr => 5,
            Shift::Sar => 7,
        }
    }
}

/// x86 condition codes.
#[derive(Clone, Copy, PartialEq, Eq, Structural)]
pub enum Cc {
    B,
    Ae,
    E,
    Ne,
    Be,
    A,
    S,
    Ns,
}

impl Cc {
    /// The condition number in the opcode map.
    #[verifier::allow_in_spec]
    pub fn code(self) -> u8
        returns
            (match self {
                Cc::B => 2u8,
                Cc::Ae => 3u8,
                Cc::E => 4u8,
                Cc::Ne => 5u8,
                Cc::Be => 6u8,
                Cc::A => 7u8,
                Cc::S => 8u8,
                Cc::Ns => 9u8,
            }),
    {
        match self {
            Cc::B => 2,
            Cc::Ae => 3,
            Cc::E => 4,
            Cc::Ne => 5,
            Cc::Be => 6,
            Cc::A => 7,
            Cc::S => 8,
            Cc::Ns => 9,
        }
    }
}

/// An operand: a register, or memory at `[base + disp]`.
#[derive(Clone, Copy, PartialEq, Eq, Structural)]
pub enum Rm {
    R(u8),
    Mem { base: u8, disp: i32 },
}

/// `[rbp + disp]`: a field of the machine state.
#[allow(non_snake_case)]
#[verifier::allow_in_spec]
pub fn State(disp: i32) -> Rm
    returns
        (Rm::Mem { base: RBP, disp }),
{
    Rm::Mem { base: RBP, disp }
}

impl Rm {
    /// The register number the operand's ModRM field names.
    pub open spec fn reg(self) -> u8 {
        match self {
            Rm::R(r) => r,
            Rm::Mem { base, .. } => base,
        }
    }

    /// RSP and R12 as a base would need a SIB byte, which is never emitted.
    pub open spec fn plain(self) -> bool {
        match self {
            Rm::R(_) => true,
            Rm::Mem { base, .. } => base % 8 != 4,
        }
    }
}

/// One instruction. `Jmp` and `Jcc` carry the distance in bytes from their own
/// end to their destination, as a signed 32-bit field.
#[derive(Clone, Copy, PartialEq, Eq, Structural)]
pub enum Op {
    /// `mov rm, reg`
    MovStore(Rm, u8, u8),
    /// `mov reg, rm`
    MovLoad(u8, Rm, u8),
    /// `mov r32, imm32`
    MovImm32(u8, u32),
    /// `mov r64, imm64`
    MovImm64(u8, u64),
    /// `mov rm, imm`
    MovRmImm(Rm, u32, u8),
    /// `movzx r32, rm8` or `movzx r32, rm16`
    Movzx(u8, Rm, u8),
    /// `op rm, reg`
    AluStore(Alu, Rm, u8, u8),
    /// `op reg, rm`
    AluLoad(Alu, u8, Rm, u8),
    /// `op rm, imm`
    AluImm(Alu, Rm, u32, u8),
    Inc(Rm, u8),
    Dec(Rm, u8),
    Not(Rm, u8),
    ShiftImm(Shift, Rm, u8, u8),
    /// `test rm, reg`
    Test(Rm, u8, u8),
    /// `test rm, imm`
    TestImm(Rm, u32, u8),
    Setcc(Cc, Rm),
    /// `lea reg, [base + disp]`
    Lea(u8, Rm),
    Push(u8),
    Pop(u8),
    Ret,
    CallRm(Rm),
    JmpRm(Rm),
    Jmp(u32),
    Jcc(Cc, u32),
}

/// Whether an instruction needs a REX prefix: for 64-bit width, for a register
/// numbered 8 or more, or because a byte operation on SPL, BPL, SIL or DIL means
/// AH, CH, DH or BH without one.
pub open spec fn needs_rex(reg: u8, rm: Rm, size: u8) -> bool {
    size == 8 || reg >= 8 || rm.reg() >= 8 || (size == 1 && (4 <= reg < 8 || (rm matches Rm::R(r)
        && 4 <= r < 8)))
}

/// Operand-size and REX prefixes.
pub open spec fn prefixes(reg: u8, rm: Rm, size: u8) -> Seq<u8> {
    (if size == 2 {
        seq![0x66u8]
    } else {
        seq![]
    }) + (if needs_rex(reg, rm, size) {
        seq![
            (0x40 + (if size == 8 {
                8int
            } else {
                0
            }) + (if reg >= 8 {
                4int
            } else {
                0
            }) + (if rm.reg() >= 8 {
                1int
            } else {
                0
            })) as u8,
        ]
    } else {
        seq![]
    })
}

/// The ModRM byte with its displacement. RBP and R13 have no form without one.
pub open spec fn modrm_bytes(reg: u8, rm: Rm) -> Seq<u8> {
    match rm {
        Rm::R(r) => seq![(0xc0 + 8 * (reg % 8) + r % 8) as u8],
        Rm::Mem { base, disp } => if disp == 0 && base % 8 != 5 {
            seq![(8 * (reg % 8) + base % 8) as u8]
        } else if -128 <= disp <= 127 {
            seq![(0x40 + 8 * (reg % 8) + base % 8) as u8, ((disp as int) % 256) as u8]
        } else {
            seq![(0x80 + 8 * (reg % 8) + base % 8) as u8] + bytes::le32(bytes::bits32(disp as int))
        },
    }
}

/// Prefixes, opcode and ModRM for `opcode reg, rm` at the given width in bytes.
pub open spec fn form(opcode: Seq<u8>, reg: u8, rm: Rm, size: u8) -> Seq<u8> {
    prefixes(reg, rm, size) + opcode + modrm_bytes(reg, rm)
}

/// `narrow` for byte operations and `wide` for every other width.
pub open spec fn by_width(size: u8, narrow: int, wide: int) -> Seq<u8> {
    seq![
        (if size == 1 {
            narrow
        } else {
            wide
        }) as u8,
    ]
}

/// An immediate at the given width; 64-bit operations take a 32-bit one.
pub open spec fn immediate(value: u32, size: u8) -> Seq<u8> {
    if size == 1 {
        seq![(value % 256) as u8]
    } else if size == 2 {
        bytes::le16((value % 0x1_0000) as u16)
    } else {
        bytes::le32(value)
    }
}

/// An immediate that its own low byte, sign-extended, stands for.
pub open spec fn fits_i8(value: u32) -> bool {
    value <= 127 || value >= 0xffff_ff80
}

/// The prefix byte of the short forms when the register is numbered 8 or more.
pub open spec fn short_rex(reg: u8) -> Seq<u8> {
    if reg >= 8 {
        seq![0x41u8]
    } else {
        seq![]
    }
}

impl Op {
    /// The bytes of the instruction.
    pub open spec fn encode(self) -> Seq<u8> {
        match self {
            Op::MovStore(rm, reg, size) => form(by_width(size, 0x88, 0x89), reg, rm, size),
            Op::MovLoad(reg, rm, size) => form(by_width(size, 0x8a, 0x8b), reg, rm, size),
            Op::MovImm32(reg, value) => short_rex(reg) + seq![(0xb8 + reg % 8) as u8] + bytes::le32(value),
            Op::MovImm64(reg, value) => seq![
                (if reg >= 8 {
                    0x49u8
                } else {
                    0x48u8
                }),
                (0xb8 + reg % 8) as u8,
            ] + bytes::le64(value),
            Op::MovRmImm(rm, value, size) => form(by_width(size, 0xc6, 0xc7), 0, rm, size)
                + immediate(value, size),
            Op::Movzx(reg, rm, src) => form(
                seq![
                    0x0fu8,
                    (if src == 1 {
                        0xb6u8
                    } else {
                        0xb7u8
                    }),
                ],
                reg,
                rm,
                if src == 1 {
                    1
                } else {
                    4
                },
            ),
            Op::AluStore(op, rm, reg, size) => form(
                by_width(size, op.code() * 8, op.code() * 8 + 1),
                reg,
                rm,
                size,
            ),
            Op::AluLoad(op, reg, rm, size) => form(
                by_width(size, op.code() * 8 + 2, op.code() * 8 + 3),
                reg,
                rm,
                size,
            ),
            Op::AluImm(op, rm, value, size) => if size == 1 {
                form(seq![0x80u8], op.code(), rm, 1) + seq![(value % 256) as u8]
            } else if fits_i8(value) {
                form(seq![0x83u8], op.code(), rm, size) + seq![(value % 256) as u8]
            } else {
                form(seq![0x81u8], op.code(), rm, size) + immediate(value, size)
            },
            Op::Inc(rm, size) => form(by_width(size, 0xfe, 0xff), 0, rm, size),
            Op::Dec(rm, size) => form(by_width(size, 0xfe, 0xff), 1, rm, size),
            Op::Not(rm, size) => form(by_width(size, 0xf6, 0xf7), 2, rm, size),
            Op::ShiftImm(kind, rm, amount, size) => form(
                by_width(size, 0xc0, 0xc1),
                kind.code(),
                rm,
                size,
            ) + seq![amount],
            Op::Test(rm, reg, size) => form(by_width(size, 0x84, 0x85), reg, rm, size),
            Op::TestImm(rm, value, size) => form(by_width(size, 0xf6, 0xf7), 0, rm, size)
                + immediate(value, size),
            Op::Setcc(cc, rm) => form(seq![0x0fu8, (0x90 + cc.code()) as u8], 0, rm, 1),
            Op::Lea(reg, rm) => form(seq![0x8du8], reg, rm, 8),
            Op::Push(reg) => short_rex(reg) + seq![(0x50 + reg % 8) as u8],
            Op::Pop(reg) => short_rex(reg) + seq![(0x58 + reg % 8) as u8],
            Op::Ret => seq![0xc3u8],
            Op::CallRm(rm) => form(seq![0xffu8], 2, rm, 4),
            Op::JmpRm(rm) => form(seq![0xffu8], 4, rm, 4),
            Op::Jmp(rel) => seq![0xe9u8] + bytes::le32(rel),
            Op::Jcc(cc, rel) => seq![0x0fu8, (0x80 + cc.code()) as u8] + bytes::le32(rel),
        }
    }

    /// No operand of the instruction needs a SIB byte.
    pub open spec fn plain(self) -> bool {
        match self {
            Op::MovStore(rm, _, _) => rm.plain(),
            Op::MovLoad(_, rm, _) => rm.plain(),
            Op::MovRmImm(rm, _, _) => rm.plain(),
            Op::Movzx(_, rm, _) => rm.plain(),
            Op::AluStore(_, rm, _, _) => rm.plain(),
            Op::AluLoad(_, _, rm, _) => rm.plain(),
            Op::AluImm(_, rm, _, _) => rm.plain(),
            Op::Inc(rm, _) => rm.plain(),
            Op::Dec(rm, _) => rm.plain(),
            Op::Not(rm, _) => rm.plain(),
            Op::ShiftImm(_, rm, _, _) => rm.plain(),
            Op::Test(rm, _, _) => rm.plain(),
            Op::TestImm(rm, _, _) => rm.plain(),
            Op::Setcc(_, rm) => rm.plain(),
            Op::Lea(_, rm) => rm.plain(),
            Op::CallRm(rm) => rm.plain(),
            Op::JmpRm(rm) => rm.plain(),
            _ => true,
        }
    }
}

/// The bytes of a run of instructions, one after another.
pub open spec fn encode_all(ops: Seq<Op>) -> Seq<u8>
    decreases ops.len(),
{
    if ops.len() == 0 {
        seq![]
    } else {
        encode_all(ops.drop_last()) + ops.last().encode()
    }
}

/// No instruction is empty.
pub proof fn lemma_encode_nonempty(op: Op)
    ensures
        op.encode().len() >= 1,
{
}

proof fn lemma_form_short(opcode: Seq<u8>, reg: u8, rm: Rm, size: u8)
    ensures
        form(opcode, reg, rm, size).len() <= opcode.len() + 7,
{
    assert(prefixes(reg, rm, size).len() <= 2);
    assert(modrm_bytes(reg, rm).len() <= 5);
}

/// No instruction is longer than the hardware allows.
pub proof fn lemma_encode_short(op: Op)
    ensures
        op.encode().len() <= 15,
{
    match op {
        Op::MovStore(rm, reg, size) => lemma_form_short(by_width(size, 0x88, 0x89), reg, rm, size),
        Op::MovLoad(reg, rm, size) => lemma_form_short(by_width(size, 0x8a, 0x8b), reg, rm, size),
        Op::MovRmImm(rm, value, size) => lemma_form_short(by_width(size, 0xc6, 0xc7), 0, rm, size),
        Op::Movzx(reg, rm, src) => lemma_form_short(
            seq![
                0x0fu8,
                (if src == 1 {
                    0xb6u8
                } else {
                    0xb7u8
                }),
            ],
            reg,
            rm,
            if src == 1 {
                1
            } else {
                4
            },
        ),
        Op::AluStore(op, rm, reg, size) => lemma_form_short(
            by_width(size, op.code() * 8, op.code() * 8 + 1),
            reg,
            rm,
            size,
        ),
        Op::AluLoad(op, reg, rm, size) => lemma_form_short(
            by_width(size, op.code() * 8 + 2, op.code() * 8 + 3),
            reg,
            rm,
            size,
        ),
        Op::AluImm(op, rm, value, size) => {
            lemma_form_short(seq![0x80u8], op.code(), rm, 1);
            lemma_form_short(seq![0x83u8], op.code(), rm, size);
            lemma_form_short(seq![0x81u8], op.code(), rm, size);
        },
        Op::Inc(rm, size) => lemma_form_short(by_width(size, 0xfe, 0xff), 0, rm, size),
        Op::Dec(rm, size) => lemma_form_short(by_width(size, 0xfe, 0xff), 1, rm, size),
        Op::Not(rm, size) => lemma_form_short(by_width(size, 0xf6, 0xf7), 2, rm, size),
        Op::ShiftImm(kind, rm, amount, size) => lemma_form_short(
            by_width(size, 0xc0, 0xc1),
            kind.code(),
            rm,
            size,
        ),
        Op::Test(rm, reg, size) => lemma_form_short(by_width(size, 0x84, 0x85), reg, rm, size),
        Op::TestImm(rm, value, size) => lemma_form_short(by_width(size, 0xf6, 0xf7), 0, rm, size),
        Op::Setcc(cc, rm) => lemma_form_short(seq![0x0fu8, (0x90 + cc.code()) as u8], 0, rm, 1),
        Op::Lea(reg, rm) => lemma_form_short(seq![0x8du8], reg, rm, 8),
        Op::CallRm(rm) => lemma_form_short(seq![0xffu8], 2, rm, 4),
        Op::JmpRm(rm) => lemma_form_short(seq![0xffu8], 4, rm, 4),
        _ => {},
    }
}

/// The length of a program is bounded by the number of its instructions.
pub proof fn lemma_encode_all_short(ops: Seq<Op>)
    ensures
        encode_all(ops).len() <= 15 * ops.len(),
    decreases ops.len(),
{
    if ops.len() > 0 {
        lemma_encode_all_short(ops.drop_last());
        lemma_encode_short(ops.last());
    }
}

/// Programs one after another are encoded one after another.
pub proof fn lemma_encode_concat(a: Seq<Op>, b: Seq<Op>)
    ensures
        encode_all(a + b) == encode_all(a) + encode_all(b),
    decreases b.len(),
{
    if b.len() == 0 {
        assert(a + b =~= a);
        assert(encode_all(a) + encode_all(b) =~= encode_all(a));
    } else {
        let last = b.last();
        assert((a + b).drop_last() =~= a + b.drop_last());
        lemma_encode_concat(a, b.drop_last());
        assert(encode_all(a) + encode_all(b) =~= (encode_all(a) + encode_all(b.drop_last()))
            + last.encode());
    }
}

/// One more instruction of a program.
pub proof fn lemma_encode_take(ops: Seq<Op>, k: int)
    requires
        0 <= k < ops.len(),
    ensures
        encode_all(ops.take(k + 1)) == encode_all(ops.take(k)) + ops[k].encode(),
{
    assert(ops.take(k + 1).drop_last() =~= ops.take(k));
}

/// The encoding of a single instruction.
pub proof fn lemma_encode_one(op: Op)
    ensures
        encode_all(seq![op]) == op.encode(),
{
    reveal_with_fuel(encode_all, 2);
    assert(seq![op].drop_last() =~= seq![]);
    assert(encode_all(seq![op]) =~= op.encode());
}

/// A program is its first instruction and then the rest.
pub proof fn lemma_encode_first(ops: Seq<Op>)
    requires
        ops.len() > 0,
    ensures
        encode_all(ops) == ops[0].encode() + encode_all(ops.skip(1)),
{
    assert(ops =~= seq![ops[0]] + ops.skip(1));
    lemma_encode_concat(seq![ops[0]], ops.skip(1));
    lemma_encode_one(ops[0]);
}

/// A jump whose destination is not known yet.
pub struct Patch {
    /// Offset of the rel32 field within the buffer.
    at: usize,
}

impl Patch {
    /// Offset of the rel32 field within the buffer.
    pub closed spec fn site(self) -> usize {
        self.at
    }
}

pub struct Asm {
    pub code: Vec<u8>,
}

impl Default for Asm {
    fn default() -> (buf: Asm)
        ensures
            buf.code@ == Seq::<u8>::empty(),
    {
        Asm::new()
    }
}

impl Asm {
    pub fn new() -> (buf: Self)
        ensures
            buf.code@ == Seq::<u8>::empty(),
    {
        Asm { code: Vec::with_capacity(256) }
    }

    pub fn len(&self) -> (n: usize)
        ensures
            n == self.code@.len(),
    {
        self.code.len()
    }

    pub fn is_empty(&self) -> (b: bool)
        ensures
            b == (self.code@.len() == 0),
    {
        self.code.is_empty()
    }

    fn byte(&mut self, b: u8)
        ensures
            final(self).code@ == old(self).code@.push(b),
    {
        self.code.push(b);
    }

    fn bytes(&mut self, b: &[u8])
        ensures
            final(self).code@ == old(self).code@ + b@,
    {
        push_all(&mut self.code, b);
    }

    /// Emit prefixes, opcode and ModRM for `opcode reg, rm` at the given width.
    /// `size` is 1, 2, 4 or 8 bytes.
    fn encode(&mut self, opcode: &[u8], reg: u8, rm: Rm, size: u8)
        requires
            rm.plain(),
        ensures
            final(self).code@ == old(self).code@ + form(opcode@, reg, rm, size),
    {
        if size == 2 {
            self.byte(0x66);
        }
        let (rm_reg, is_reg): (u8, bool) = match rm {
            Rm::R(r) => (r, true),
            Rm::Mem { base, .. } => (base, false),
        };
        let mut rex: u8 = 0;
        if size == 8 {
            rex = rex + 8;
        }
        if reg >= 8 {
            rex = rex + 4;
        }
        if rm_reg >= 8 {
            rex = rex + 1;
        }
        // Byte operations on SPL/BPL/SIL/DIL need a REX prefix; the same
        // encodings without one mean AH/CH/DH/BH instead.
        let low = size == 1 && ((4 <= reg && reg < 8) || (is_reg && 4 <= rm_reg && rm_reg < 8));
        if rex != 0 || low {
            self.byte(0x40 + rex);
        }
        assert(self.code@ =~= old(self).code@ + prefixes(reg, rm, size));
        self.bytes(opcode);
        self.modrm(reg, rm);
        assert(self.code@ =~= old(self).code@ + form(opcode@, reg, rm, size));
    }

    fn modrm(&mut self, reg: u8, rm: Rm)
        requires
            rm.plain(),
        ensures
            final(self).code@ == old(self).code@ + modrm_bytes(reg, rm),
    {
        match rm {
            Rm::R(r) => self.byte(0xc0 + 8 * (reg % 8) + r % 8),
            Rm::Mem { base, disp } => {
                // RBP/R13 have no zero-displacement form, so always give them one.
                let needs_disp = disp != 0 || base % 8 == 5;
                if !needs_disp {
                    self.byte(8 * (reg % 8) + base % 8);
                } else if -128 <= disp && disp <= 127 {
                    self.byte(0x40 + 8 * (reg % 8) + base % 8);
                    if disp >= 0 {
                        self.byte(disp as u8);
                    } else {
                        self.byte((disp + 256) as u8);
                    }
                } else {
                    self.byte(0x80 + 8 * (reg % 8) + base % 8);
                    let bits: u32 = if disp >= 0 {
                        disp as u32
                    } else {
                        (disp as i64 + 0x1_0000_0000) as u32
                    };
                    push_le32(&mut self.code, bits);
                }
            },
        }
        assert(self.code@ =~= old(self).code@ + modrm_bytes(reg, rm));
    }

    fn immediate(&mut self, value: u32, size: u8)
        ensures
            final(self).code@ == old(self).code@ + immediate(value, size),
    {
        if size == 1 {
            self.byte((value % 256) as u8);
        } else if size == 2 {
            push_le16(&mut self.code, (value % 0x1_0000) as u16);
        } else {
            push_le32(&mut self.code, value);
        }
        assert(self.code@ =~= old(self).code@ + immediate(value, size));
    }

    // ---- moves -----------------------------------------------------------

    /// `mov rm, reg`
    pub fn mov_store(&mut self, rm: Rm, reg: u8, size: u8)
        requires
            rm.plain(),
        ensures
            final(self).code@ == old(self).code@ + Op::MovStore(rm, reg, size).encode(),
    {
        let op: u8 = if size == 1 { 0x88 } else { 0x89 };
        self.encode(&[op], reg, rm, size);
        assert([op]@ =~= by_width(size, 0x88, 0x89));
    }

    /// `mov reg, rm`
    pub fn mov_load(&mut self, reg: u8, rm: Rm, size: u8)
        requires
            rm.plain(),
        ensures
            final(self).code@ == old(self).code@ + Op::MovLoad(reg, rm, size).encode(),
    {
        let op: u8 = if size == 1 { 0x8a } else { 0x8b };
        self.encode(&[op], reg, rm, size);
        assert([op]@ =~= by_width(size, 0x8a, 0x8b));
    }

    pub fn mov_reg(&mut self, dst: u8, src: u8, size: u8)
        ensures
            final(self).code@ == old(self).code@ + Op::MovStore(Rm::R(dst), src, size).encode(),
    {
        self.mov_store(Rm::R(dst), src, size);
    }

    pub fn mov_imm32(&mut self, reg: u8, value: u32)
        ensures
            final(self).code@ == old(self).code@ + Op::MovImm32(reg, value).encode(),
    {
        if reg >= 8 {
            self.byte(0x41);
        }
        self.byte(0xb8 + reg % 8);
        push_le32(&mut self.code, value);
        assert(self.code@ =~= old(self).code@ + Op::MovImm32(reg, value).encode());
    }

    pub fn mov_imm64(&mut self, reg: u8, value: u64)
        ensures
            final(self).code@ == old(self).code@ + Op::MovImm64(reg, value).encode(),
    {
        self.byte(if reg >= 8 { 0x49 } else { 0x48 });
        self.byte(0xb8 + reg % 8);
        push_le64(&mut self.code, value);
        assert(self.code@ =~= old(self).code@ + Op::MovImm64(reg, value).encode());
    }

    /// `mov rm, imm`
    pub fn mov_rm_imm(&mut self, rm: Rm, value: u32, size: u8)
        requires
            rm.plain(),
        ensures
            final(self).code@ == old(self).code@ + Op::MovRmImm(rm, value, size).encode(),
    {
        let op: u8 = if size == 1 { 0xc6 } else { 0xc7 };
        self.encode(&[op], 0, rm, size);
        assert([op]@ =~= by_width(size, 0xc6, 0xc7));
        self.immediate(value, size);
        assert(self.code@ =~= old(self).code@ + Op::MovRmImm(rm, value, size).encode());
    }

    /// `movzx r32, rm8` or `movzx r32, rm16`
    pub fn movzx(&mut self, reg: u8, rm: Rm, src_size: u8)
        requires
            rm.plain(),
        ensures
            final(self).code@ == old(self).code@ + Op::Movzx(reg, rm, src_size).encode(),
    {
        let op: u8 = if src_size == 1 { 0xb6 } else { 0xb7 };
        // The 0x0F escape goes after REX, which `encode` handles by taking the
        // whole opcode sequence.
        self.encode(&[0x0f, op], reg, rm, if src_size == 1 { 1 } else { 4 });
        assert([0x0fu8, op]@ =~= seq![0x0fu8, (if src_size == 1 { 0xb6u8 } else { 0xb7u8 })]);
    }

    // ---- arithmetic ------------------------------------------------------

    /// `op rm, reg`
    pub fn alu_store(&mut self, op: Alu, rm: Rm, reg: u8, size: u8)
        requires
            rm.plain(),
        ensures
            final(self).code@ == old(self).code@ + Op::AluStore(op, rm, reg, size).encode(),
    {
        let base: u8 = op.code() * 8 + if size == 1 { 0x00 } else { 0x01 };
        self.encode(&[base], reg, rm, size);
        assert([base]@ =~= by_width(size, op.code() * 8, op.code() * 8 + 1));
    }

    /// `op reg, rm`
    pub fn alu_load(&mut self, op: Alu, reg: u8, rm: Rm, size: u8)
        requires
            rm.plain(),
        ensures
            final(self).code@ == old(self).code@ + Op::AluLoad(op, reg, rm, size).encode(),
    {
        let base: u8 = op.code() * 8 + if size == 1 { 0x02 } else { 0x03 };
        self.encode(&[base], reg, rm, size);
        assert([base]@ =~= by_width(size, op.code() * 8 + 2, op.code() * 8 + 3));
    }

    pub fn alu_reg(&mut self, op: Alu, dst: u8, src: u8, size: u8)
        ensures
            final(self).code@ == old(self).code@ + Op::AluStore(op, Rm::R(dst), src, size).encode(),
    {
        self.alu_store(op, Rm::R(dst), src, size);
    }

    /// `op rm, imm`
    pub fn alu_imm(&mut self, op: Alu, rm: Rm, value: u32, size: u8)
        requires
            rm.plain(),
        ensures
            final(self).code@ == old(self).code@ + Op::AluImm(op, rm, value, size).encode(),
    {
        if size == 1 {
            self.encode(&[0x80], op.code(), rm, 1);
            assert([0x80u8]@ =~= seq![0x80u8]);
            self.byte((value % 256) as u8);
        } else if value <= 127 || value >= 0xffff_ff80 {
            self.encode(&[0x83], op.code(), rm, size);
            assert([0x83u8]@ =~= seq![0x83u8]);
            self.byte((value % 256) as u8);
        } else {
            self.encode(&[0x81], op.code(), rm, size);
            assert([0x81u8]@ =~= seq![0x81u8]);
            self.immediate(value, size);
        }
        assert(self.code@ =~= old(self).code@ + Op::AluImm(op, rm, value, size).encode());
    }

    pub fn inc(&mut self, rm: Rm, size: u8)
        requires
            rm.plain(),
        ensures
            final(self).code@ == old(self).code@ + Op::Inc(rm, size).encode(),
    {
        let op: u8 = if size == 1 { 0xfe } else { 0xff };
        self.encode(&[op], 0, rm, size);
        assert([op]@ =~= by_width(size, 0xfe, 0xff));
    }

    pub fn dec(&mut self, rm: Rm, size: u8)
        requires
            rm.plain(),
        ensures
            final(self).code@ == old(self).code@ + Op::Dec(rm, size).encode(),
    {
        let op: u8 = if size == 1 { 0xfe } else { 0xff };
        self.encode(&[op], 1, rm, size);
        assert([op]@ =~= by_width(size, 0xfe, 0xff));
    }

    pub fn not(&mut self, rm: Rm, size: u8)
        requires
            rm.plain(),
        ensures
            final(self).code@ == old(self).code@ + Op::Not(rm, size).encode(),
    {
        let op: u8 = if size == 1 { 0xf6 } else { 0xf7 };
        self.encode(&[op], 2, rm, size);
        assert([op]@ =~= by_width(size, 0xf6, 0xf7));
    }

    pub fn shift_imm(&mut self, kind: Shift, rm: Rm, amount: u8, size: u8)
        requires
            rm.plain(),
        ensures
            final(self).code@ == old(self).code@ + Op::ShiftImm(kind, rm, amount, size).encode(),
    {
        let op: u8 = if size == 1 { 0xc0 } else { 0xc1 };
        self.encode(&[op], kind.code(), rm, size);
        assert([op]@ =~= by_width(size, 0xc0, 0xc1));
        self.byte(amount);
        assert(self.code@ =~= old(self).code@ + Op::ShiftImm(kind, rm, amount, size).encode());
    }

    pub fn test(&mut self, rm: Rm, reg: u8, size: u8)
        requires
            rm.plain(),
        ensures
            final(self).code@ == old(self).code@ + Op::Test(rm, reg, size).encode(),
    {
        let op: u8 = if size == 1 { 0x84 } else { 0x85 };
        self.encode(&[op], reg, rm, size);
        assert([op]@ =~= by_width(size, 0x84, 0x85));
    }

    pub fn test_imm(&mut self, rm: Rm, value: u32, size: u8)
        requires
            rm.plain(),
        ensures
            final(self).code@ == old(self).code@ + Op::TestImm(rm, value, size).encode(),
    {
        let op: u8 = if size == 1 { 0xf6 } else { 0xf7 };
        self.encode(&[op], 0, rm, size);
        assert([op]@ =~= by_width(size, 0xf6, 0xf7));
        self.immediate(value, size);
        assert(self.code@ =~= old(self).code@ + Op::TestImm(rm, value, size).encode());
    }

    pub fn setcc(&mut self, cc: Cc, rm: Rm)
        requires
            rm.plain(),
        ensures
            final(self).code@ == old(self).code@ + Op::Setcc(cc, rm).encode(),
    {
        let op: u8 = 0x90 + cc.code();
        self.encode(&[0x0f, op], 0, rm, 1);
        assert([0x0fu8, op]@ =~= seq![0x0fu8, (0x90 + cc.code()) as u8]);
    }

    /// `lea reg, [base + disp]`
    pub fn lea(&mut self, reg: u8, rm: Rm)
        requires
            rm.plain(),
        ensures
            final(self).code@ == old(self).code@ + Op::Lea(reg, rm).encode(),
    {
        self.encode(&[0x8d], reg, rm, 8);
        assert([0x8du8]@ =~= seq![0x8du8]);
    }

    // ---- stack and control flow ------------------------------------------

    pub fn push(&mut self, reg: u8)
        ensures
            final(self).code@ == old(self).code@ + Op::Push(reg).encode(),
    {
        if reg >= 8 {
            self.byte(0x41);
        }
        self.byte(0x50 + reg % 8);
        assert(self.code@ =~= old(self).code@ + Op::Push(reg).encode());
    }

    pub fn pop(&mut self, reg: u8)
        ensures
            final(self).code@ == old(self).code@ + Op::Pop(reg).encode(),
    {
        if reg >= 8 {
            self.byte(0x41);
        }
        self.byte(0x58 + reg % 8);
        assert(self.code@ =~= old(self).code@ + Op::Pop(reg).encode());
    }

    pub fn ret(&mut self)
        ensures
            final(self).code@ == old(self).code@ + Op::Ret.encode(),
    {
        self.byte(0xc3);
        assert(self.code@ =~= old(self).code@ + Op::Ret.encode());
    }

    /// `call rm`: used for the helper table entries at `[rbp + n]`.
    pub fn call_rm(&mut self, rm: Rm)
        requires
            rm.plain(),
        ensures
            final(self).code@ == old(self).code@ + Op::CallRm(rm).encode(),
    {
        self.encode(&[0xff], 2, rm, 4);
        assert([0xffu8]@ =~= seq![0xffu8]);
    }

    pub fn jmp_rm(&mut self, rm: Rm)
        requires
            rm.plain(),
        ensures
            final(self).code@ == old(self).code@ + Op::JmpRm(rm).encode(),
    {
        self.encode(&[0xff], 4, rm, 4);
        assert([0xffu8]@ =~= seq![0xffu8]);
    }

    /// `jmp rel32` with the destination filled in later.
    pub fn jmp_placeholder(&mut self) -> (patch: Patch)
        ensures
            final(self).code@ == old(self).code@ + Op::Jmp(0).encode(),
            patch.site() == old(self).code@.len() + 1,
    {
        self.byte(0xe9);
        let at = self.code.len();
        push_le32(&mut self.code, 0);
        assert(self.code@ =~= old(self).code@ + Op::Jmp(0).encode());
        Patch { at }
    }

    pub fn jcc_placeholder(&mut self, cc: Cc) -> (patch: Patch)
        ensures
            final(self).code@ == old(self).code@ + Op::Jcc(cc, 0).encode(),
            patch.site() == old(self).code@.len() + 2,
    {
        self.byte(0x0f);
        self.byte(0x80 + cc.code());
        let at = self.code.len();
        push_le32(&mut self.code, 0);
        assert(self.code@ =~= old(self).code@ + Op::Jcc(cc, 0).encode());
        Patch { at }
    }

    /// Point a previously emitted jump at the current end of the buffer.
    pub fn bind(&mut self, patch: Patch)
        requires
            patch.site() + 4 <= old(self).code.len(),
        ensures
            final(self).code@ == bytes::splice(
                old(self).code@,
                patch.site() as int,
                bytes::le32(bytes::bits32(old(self).code@.len() - (patch.site() + 4))),
            ),
    {
        let target = self.code.len();
        self.bind_to(patch, target);
    }

    /// Point a jump at an arbitrary offset within this buffer.
    pub fn bind_to(&mut self, patch: Patch, target: usize)
        requires
            patch.site() + 4 <= old(self).code.len(),
        ensures
            final(self).code@ == bytes::splice(
                old(self).code@,
                patch.site() as int,
                bytes::le32(bytes::bits32(target - (patch.site() + 4))),
            ),
    {
        let from: usize = patch.at + 4;
        let rel: u32 = if target >= from {
            ((target - from) as u64 % 0x1_0000_0000) as u32
        } else {
            0u32.wrapping_sub(((from - target) as u64 % 0x1_0000_0000) as u32)
        };
        assert(rel == bytes::bits32(target - from));
        put_le32(&mut self.code, patch.at, rel);
    }

    /// Where a pending jump's rel32 field sits, for cross-block linking.
    pub fn patch_site(patch: &Patch) -> (at: usize)
        ensures
            at == patch.site(),
    {
        patch.at
    }

    pub fn into_patch(at: usize) -> (patch: Patch)
        ensures
            patch.site() == at,
    {
        Patch { at }
    }

    /// Append one instruction.
    pub fn emit(&mut self, op: Op)
        requires
            op.plain(),
        ensures
            final(self).code@ == old(self).code@ + op.encode(),
    {
        match op {
            Op::MovStore(rm, reg, size) => self.mov_store(rm, reg, size),
            Op::MovLoad(reg, rm, size) => self.mov_load(reg, rm, size),
            Op::MovImm32(reg, value) => self.mov_imm32(reg, value),
            Op::MovImm64(reg, value) => self.mov_imm64(reg, value),
            Op::MovRmImm(rm, value, size) => self.mov_rm_imm(rm, value, size),
            Op::Movzx(reg, rm, src) => self.movzx(reg, rm, src),
            Op::AluStore(op, rm, reg, size) => self.alu_store(op, rm, reg, size),
            Op::AluLoad(op, reg, rm, size) => self.alu_load(op, reg, rm, size),
            Op::AluImm(op, rm, value, size) => self.alu_imm(op, rm, value, size),
            Op::Inc(rm, size) => self.inc(rm, size),
            Op::Dec(rm, size) => self.dec(rm, size),
            Op::Not(rm, size) => self.not(rm, size),
            Op::ShiftImm(kind, rm, amount, size) => self.shift_imm(kind, rm, amount, size),
            Op::Test(rm, reg, size) => self.test(rm, reg, size),
            Op::TestImm(rm, value, size) => self.test_imm(rm, value, size),
            Op::Setcc(cc, rm) => self.setcc(cc, rm),
            Op::Lea(reg, rm) => self.lea(reg, rm),
            Op::Push(reg) => self.push(reg),
            Op::Pop(reg) => self.pop(reg),
            Op::Ret => self.ret(),
            Op::CallRm(rm) => self.call_rm(rm),
            Op::JmpRm(rm) => self.jmp_rm(rm),
            Op::Jmp(rel) => {
                self.byte(0xe9);
                push_le32(&mut self.code, rel);
                assert(self.code@ =~= old(self).code@ + op.encode());
            },
            Op::Jcc(cc, rel) => {
                self.byte(0x0f);
                self.byte(0x80 + cc.code());
                push_le32(&mut self.code, rel);
                assert(self.code@ =~= old(self).code@ + op.encode());
            },
        }
    }
}

} // verus!
