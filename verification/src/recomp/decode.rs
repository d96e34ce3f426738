//! SM83 instruction decoding: enough to know how long an instruction is and
//! where control goes next. Semantics live in the translator.

use vstd::prelude::*;

verus! {

/// How an instruction moves the program counter.
#[derive(Debug, Clone, Copy, PartialEq, Eq, Structural)]
pub enum Flow {
    /// Falls through to the next instruction.
    Normal,
    /// `JP nn` / `JR e`, absolute target known at translation time.
    Jump { target: u16, conditional: bool },
    /// `CALL nn`.
    Call { target: u16, conditional: bool },
    /// `RST n`.
    Rst { target: u16 },
    /// `RET`, `RETI`.
    Ret { conditional: bool, enable_interrupts: bool },
    /// `JP HL`: the destination is only known while running.
    JumpIndirect,
    Halt,
    Stop,
    /// An opcode the hardware does not implement.
    Illegal,
}

impl Flow {
    /// Whether the instruction after this one is reachable by falling through:
    /// always, but for an unconditional jump or return, a computed jump, and an
    /// opcode that does not exist.
    #[verifier::allow_in_spec]
    pub fn falls_through(self) -> bool
        returns
            (match self {
                Flow::Jump { conditional, .. } => conditional,
                Flow::Ret { conditional, .. } => conditional,
                Flow::JumpIndirect => false,
                Flow::Illegal => false,
                _ => true,
            }),
    {
        match self {
            Flow::Normal | Flow::Halt | Flow::Stop => true,
            Flow::Jump { conditional, .. } => conditional,
            Flow::Call { .. } => true,
            Flow::Rst { .. } => true,
            Flow::Ret { conditional, .. } => conditional,
            Flow::JumpIndirect | Flow::Illegal => false,
        }
    }

    /// Whether a block must end here.
    #[verifier::allow_in_spec]
    pub fn ends_block(self) -> bool
        returns
            !(self is Normal),
    {
        !matches!(self, Flow::Normal)
    }
}

#[derive(Debug, Clone, Copy, PartialEq, Eq, Structural)]
pub struct Insn {
    pub addr: u16,
    pub opcode: u8,
    /// Second byte of a `CB`-prefixed instruction.
    pub cb: u8,
    pub imm8: u8,
    pub imm16: u16,
    pub len: u8,
    pub flow: Flow,
}

/// Instruction length in bytes, indexed by opcode. The opcodes the hardware
/// locks up on count as one byte.
pub const LENGTHS: [u8; 256] = [
    1, 3, 1, 1, 1, 1, 2, 1, 3, 1, 1, 1, 1, 1, 2, 1,
    2, 3, 1, 1, 1, 1, 2, 1, 2, 1, 1, 1, 1, 1, 2, 1,
    2, 3, 1, 1, 1, 1, 2, 1, 2, 1, 1, 1, 1, 1, 2, 1,
    2, 3, 1, 1, 1, 1, 2, 1, 2, 1, 1, 1, 1, 1, 2, 1,
    1, 1, 1, 1, 1, 1, 1, 1, 1, 1, 1, 1, 1, 1, 1, 1,
    1, 1, 1, 1, 1, 1, 1, 1, 1, 1, 1, 1, 1, 1, 1, 1,
    1, 1, 1, 1, 1, 1, 1, 1, 1, 1, 1, 1, 1, 1, 1, 1,
    1, 1, 1, 1, 1, 1, 1, 1, 1, 1, 1, 1, 1, 1, 1, 1,
    1, 1, 1, 1, 1, 1, 1, 1, 1, 1, 1, 1, 1, 1, 1, 1,
    1, 1, 1, 1, 1, 1, 1, 1, 1, 1, 1, 1, 1, 1, 1, 1,
    1, 1, 1, 1, 1, 1, 1, 1, 1, 1, 1, 1, 1, 1, 1, 1,
    1, 1, 1, 1, 1, 1, 1, 1, 1, 1, 1, 1, 1, 1, 1, 1,
    1, 1, 3, 3, 3, 1, 2, 1, 1, 1, 3, 2, 3, 3, 2, 1,
    1, 1, 3, 1, 3, 1, 2, 1, 1, 1, 3, 1, 3, 1, 2, 1,
    2, 1, 1, 1, 1, 1, 2, 1, 2, 1, 3, 1, 1, 1, 2, 1,
    2, 1, 1, 1, 1, 1, 2, 1, 2, 1, 3, 1, 1, 1, 2, 1,
];

pub const ILLEGAL: [u8; 11] = [
    0xd3, 0xdb, 0xdd, 0xe3, 0xe4, 0xeb, 0xec, 0xed, 0xf4, 0xfc, 0xfd,
];

/// The opcodes with no wiring behind them.
pub open spec fn illegal(opcode: u8) -> bool {
    opcode == 0xd3 || opcode == 0xdb || opcode == 0xdd || opcode == 0xe3 || opcode == 0xe4 || opcode
        == 0xeb || opcode == 0xec || opcode == 0xed || opcode == 0xf4 || opcode == 0xfc || opcode
        == 0xfd
}

pub fn is_illegal(opcode: u8) -> (b: bool)
    ensures
        b == illegal(opcode),
        b == ILLEGAL@.contains(opcode),
{
    proof {
        let s = ILLEGAL@;
        assert(s[0] == 0xd3 && s[1] == 0xdb && s[2] == 0xdd && s[3] == 0xe3 && s[4] == 0xe4 && s[5]
            == 0xeb && s[6] == 0xec && s[7] == 0xed && s[8] == 0xf4 && s[9] == 0xfc && s[10]
            == 0xfd);
    }
    let mut i: usize = 0;
    while i < 11
        invariant
            i <= 11,
            forall|j: int| 0 <= j < i ==> ILLEGAL@[j] != opcode,
        decreases 11 - i,
    {
        if ILLEGAL[i] == opcode {
            assert(ILLEGAL@.contains(opcode));
            assert(illegal(opcode)) by {
                let s = ILLEGAL@;
                assert(s[0] == 0xd3 && s[1] == 0xdb && s[2] == 0xdd && s[3] == 0xe3 && s[4] == 0xe4
                    && s[5] == 0xeb && s[6] == 0xec && s[7] == 0xed && s[8] == 0xf4 && s[9] == 0xfc
                    && s[10] == 0xfd);
            }
            return true;
        }
        i += 1;
    }
    false
}

/// `x` reduced to 16 bits.
pub open spec fn wrap16(x: int) -> u16 {
    (x % 0x1_0000) as u16
}

/// The byte `b` read as a signed number.
pub open spec fn signed(b: u8) -> int {
    if b < 128 {
        b as int
    } else {
        b - 256
    }
}

/// Where control goes after `opcode` with the given immediates, when the next
/// instruction in memory is at `next`.
pub open spec fn flow_of(opcode: u8, imm8: u8, imm16: u16, next: u16) -> Flow {
    if illegal(opcode) {
        Flow::Illegal
    } else if opcode == 0x18 {
        Flow::Jump { target: wrap16(next + signed(imm8)), conditional: false }
    } else if opcode == 0x20 || opcode == 0x28 || opcode == 0x30 || opcode == 0x38 {
        Flow::Jump { target: wrap16(next + signed(imm8)), conditional: true }
    } else if opcode == 0xc3 {
        Flow::Jump { target: imm16, conditional: false }
    } else if opcode == 0xc2 || opcode == 0xca || opcode == 0xd2 || opcode == 0xda {
        Flow::Jump { target: imm16, conditional: true }
    } else if opcode == 0xcd {
        Flow::Call { target: imm16, conditional: false }
    } else if opcode == 0xc4 || opcode == 0xcc || opcode == 0xd4 || opcode == 0xdc {
        Flow::Call { target: imm16, conditional: true }
    } else if opcode == 0xc9 {
        Flow::Ret { conditional: false, enable_interrupts: false }
    } else if opcode == 0xd9 {
        Flow::Ret { conditional: false, enable_interrupts: true }
    } else if opcode == 0xc0 || opcode == 0xc8 || opcode == 0xd0 || opcode == 0xd8 {
        Flow::Ret { conditional: true, enable_interrupts: false }
    } else if opcode >= 0xc0 && opcode % 8 == 7 {
        Flow::Rst { target: (opcode - 0xc7) as u16 }
    } else if opcode == 0xe9 {
        Flow::JumpIndirect
    } else if opcode == 0x76 {
        Flow::Halt
    } else if opcode == 0x10 {
        Flow::Stop
    } else {
        Flow::Normal
    }
}

/// The instruction at `addr` of the memory `mem`.
pub open spec fn insn_at(mem: spec_fn(u16) -> u8, addr: u16) -> Insn {
    let opcode = mem(addr);
    let len = LENGTHS@[opcode as int];
    let imm8 = if len >= 2 {
        mem(wrap16(addr + 1))
    } else {
        0u8
    };
    let imm16 = if len >= 3 {
        (imm8 + 256 * mem(wrap16(addr + 2))) as u16
    } else {
        0u16
    };
    Insn {
        addr,
        opcode,
        cb: if opcode == 0xcb {
            imm8
        } else {
            0
        },
        imm8,
        imm16,
        len,
        flow: flow_of(opcode, imm8, imm16, wrap16(addr + len)),
    }
}

/// The address of the instruction after `insn`.
pub open spec fn next_addr(insn: Insn) -> u16 {
    wrap16(insn.addr + insn.len)
}

/// The memory a byte source stands for, when it always answers one address with
/// the same byte.
pub open spec fn image<F: Fn(u16) -> u8>(fetch: &F) -> spec_fn(u16) -> u8 {
    |a: u16| choose|b: u8| call_ensures(fetch, (a,), b)
}

/// `fetch` can be asked for any address, and answers with the bytes of `mem`.
pub open spec fn reads<F: Fn(u16) -> u8>(fetch: &F, mem: spec_fn(u16) -> u8) -> bool {
    &&& forall|a: u16| #[trigger] call_requires(fetch, (a,))
    &&& forall|a: u16, b: u8| #[trigger] call_ensures(fetch, (a,), b) ==> b == mem(a)
}

/// `fetch` can be asked for any address.
pub open spec fn willing<F: Fn(u16) -> u8>(fetch: &F) -> bool {
    forall|a: u16| #[trigger] call_requires(fetch, (a,))
}

/// `fetch` always answers one address alike.
pub open spec fn steady<F: Fn(u16) -> u8>(fetch: &F) -> bool {
    forall|a: u16, b: u8, c: u8|
        #[trigger] call_ensures(fetch, (a,), b) && #[trigger] call_ensures(fetch, (a,), c) ==> b
            == c
}

/// Whether `a` is one of the `len` addresses from `start` on.
pub open spec fn among(start: u16, len: int, a: u16) -> bool {
    (a - start) % 0x1_0000 < len
}

/// The `len` bytes of `mem` from `start` on are answers of `fetch`.
pub open spec fn answers<F: Fn(u16) -> u8>(
    fetch: &F,
    mem: spec_fn(u16) -> u8,
    start: u16,
    len: int,
) -> bool {
    forall|a: u16| #[trigger] among(start, len, a) ==> call_ensures(fetch, (a,), mem(a))
}

/// The bytes in `heard`, by their addresses, are answers of `fetch`.
pub open spec fn heard_from<F: Fn(u16) -> u8>(fetch: &F, heard: Map<u16, u8>) -> bool {
    forall|a: u16| #[trigger] heard.contains_key(a) ==> call_ensures(fetch, (a,), heard[a])
}

/// `mem` holds the bytes that were heard.
pub open spec fn agrees(mem: spec_fn(u16) -> u8, heard: Map<u16, u8>) -> bool {
    forall|a: u16| #[trigger] heard.contains_key(a) ==> heard[a] == mem(a)
}

/// A memory that holds the bytes that were heard.
pub open spec fn memory_of(heard: Map<u16, u8>) -> spec_fn(u16) -> u8 {
    |a: u16| heard[a]
}

/// A steady source reads the memory it stands for.
pub proof fn lemma_steady_reads_image<F: Fn(u16) -> u8>(fetch: &F)
    requires
        willing(fetch),
        steady(fetch),
    ensures
        reads(fetch, image(fetch)),
{
    assert forall|a: u16, b: u8| #[trigger] call_ensures(fetch, (a,), b) implies b == image(fetch)(
        a,
    ) by {
        let c = choose|c: u8| call_ensures(fetch, (a,), c);
        assert(call_ensures(fetch, (a,), c));
    }
}

/// Every instruction is one, two or three bytes long.
pub proof fn law_lengths(opcode: u8)
    ensures
        1 <= LENGTHS@[opcode as int] <= 3,
{
    let s = LENGTHS@;
    assert(forall|i: int| 0 <= i < 256 ==> 1 <= #[trigger] s[i] <= 3);
}

/// An opcode has no wiring behind it exactly when it decodes as illegal, and then it is one
/// byte long.
pub proof fn law_illegal(mem: spec_fn(u16) -> u8, addr: u16)
    ensures
        illegal(mem(addr)) <==> insn_at(mem, addr).flow == Flow::Illegal,
        illegal(mem(addr)) <==> ILLEGAL@.contains(mem(addr)),
        illegal(mem(addr)) ==> insn_at(mem, addr).len == 1,
{
    let s = ILLEGAL@;
    let n = LENGTHS@;
    assert(s[0] == 0xd3 && s[1] == 0xdb && s[2] == 0xdd && s[3] == 0xe3 && s[4] == 0xe4 && s[5]
        == 0xeb && s[6] == 0xec && s[7] == 0xed && s[8] == 0xf4 && s[9] == 0xfc && s[10] == 0xfd);
    assert(n[0xd3] == 1 && n[0xdb] == 1 && n[0xdd] == 1 && n[0xe3] == 1 && n[0xe4] == 1 && n[0xeb]
        == 1 && n[0xec] == 1 && n[0xed] == 1 && n[0xf4] == 1 && n[0xfc] == 1 && n[0xfd] == 1);
}

/// Decode the instruction at `addr`, reading bytes through `fetch`. Every byte of the
/// instruction is read once.
pub fn decode<F: Fn(u16) -> u8>(addr: u16, fetch: &F) -> (insn: Insn)
    requires
        willing(fetch),
    ensures
        exists|mem: spec_fn(u16) -> u8|
            answers(fetch, mem, addr, insn.len as int) && insn == #[trigger] insn_at(mem, addr),
        steady(fetch) ==> insn == insn_at(image(fetch), addr),
        forall|mem: spec_fn(u16) -> u8| #[trigger]
            reads(fetch, mem) ==> insn == insn_at(mem, addr),
        1 <= insn.len <= 3,
{
    let (insn, heard) = decode_heard(addr, fetch);
    proof {
        let mem = memory_of(heard@);
        assert(agrees(mem, heard@));
        assert forall|a: u16| #[trigger] among(addr, insn.len as int, a) implies call_ensures(
            fetch,
            (a,),
            mem(a),
        ) by {
            assert(heard@.contains_key(a));
        }
        if steady(fetch) {
            lemma_steady_reads_image(fetch);
            assert(agrees(image(fetch), heard@));
        }
        assert forall|mem: spec_fn(u16) -> u8| #[trigger] reads(fetch, mem) implies insn == insn_at(
            mem,
            addr,
        ) by {
            assert(agrees(mem, heard@));
        }
    }
    insn
}

/// As `decode`, for a source that is known to read `mem`.
pub(crate) fn decode_in<F: Fn(u16) -> u8>(
    addr: u16,
    fetch: &F,
    Ghost(mem): Ghost<spec_fn(u16) -> u8>,
) -> (insn: Insn)
    requires
        reads(fetch, mem),
    ensures
        insn == insn_at(mem, addr),
        1 <= insn.len <= 3,
{
    let (insn, heard) = decode_heard(addr, fetch);
    assert(agrees(mem, heard@));
    insn
}

/// Where control goes after `opcode` with the given immediates, when the next
/// instruction in memory is at `next`.
fn flow_after(opcode: u8, imm8: u8, imm16: u16, next: u16) -> (flow: Flow)
    ensures
        flow == flow_of(opcode, imm8, imm16, next),
{
    let relative: u16 = if imm8 < 128 {
        next.wrapping_add(imm8 as u16)
    } else {
        next.wrapping_sub(256 - imm8 as u16)
    };

    if is_illegal(opcode) {
        Flow::Illegal
    } else {
        match opcode {
            0x18 => Flow::Jump { target: relative, conditional: false },
            0x20 | 0x28 | 0x30 | 0x38 => Flow::Jump { target: relative, conditional: true },
            0xc3 => Flow::Jump { target: imm16, conditional: false },
            0xc2 | 0xca | 0xd2 | 0xda => Flow::Jump { target: imm16, conditional: true },
            0xcd => Flow::Call { target: imm16, conditional: false },
            0xc4 | 0xcc | 0xd4 | 0xdc => Flow::Call { target: imm16, conditional: true },
            0xc9 => Flow::Ret { conditional: false, enable_interrupts: false },
            0xd9 => Flow::Ret { conditional: false, enable_interrupts: true },
            0xc0 | 0xc8 | 0xd0 | 0xd8 => Flow::Ret { conditional: true, enable_interrupts: false },
            0xc7 | 0xcf | 0xd7 | 0xdf | 0xe7 | 0xef | 0xf7 | 0xff => Flow::Rst {
                target: opcode as u16 - 0xc7,
            },
            0xe9 => Flow::JumpIndirect,
            0x76 => Flow::Halt,
            0x10 => Flow::Stop,
            _ => Flow::Normal,
        }
    }
}

/// The bytes of an instruction by their addresses.
spec fn bytes_heard(addr: u16, len: int, first: u8, second: u8, third: u8) -> Map<u16, u8> {
    Map::new(
        |a: u16| among(addr, len, a),
        |a: u16|
            if a == addr {
                first
            } else if a == wrap16(addr + 1) {
                second
            } else {
                third
            },
    )
}

proof fn lemma_bytes_heard(addr: u16, len: int, first: u8, second: u8, third: u8)
    requires
        1 <= len <= 3,
    ensures
        forall|a: u16| #[trigger]
            bytes_heard(addr, len, first, second, third).contains_key(a) <==> among(addr, len, a),
        forall|a: u16| #[trigger]
            bytes_heard(addr, len, first, second, third).contains_key(a) ==> {
                let b = bytes_heard(addr, len, first, second, third)[a];
                ||| a == addr && b == first
                ||| len >= 2 && a == wrap16(addr + 1) && b == second
                ||| len >= 3 && a == wrap16(addr + 2) && b == third
            },
{
}

/// A memory that holds the bytes of an instruction holds each of them.
proof fn lemma_agrees(
    mem: spec_fn(u16) -> u8,
    addr: u16,
    len: int,
    first: u8,
    second: u8,
    third: u8,
)
    requires
        1 <= len <= 3,
        agrees(mem, bytes_heard(addr, len, first, second, third)),
    ensures
        mem(addr) == first,
        len >= 2 ==> mem(wrap16(addr + 1)) == second,
        len >= 3 ==> mem(wrap16(addr + 2)) == third,
{
    let heard = bytes_heard(addr, len, first, second, third);
    assert(heard.contains_key(addr));
    if len >= 2 {
        assert(heard.contains_key(wrap16(addr + 1)));
    }
    if len >= 3 {
        assert(heard.contains_key(wrap16(addr + 2)));
    }
}

/// As `decode`, with the bytes that were heard on the way.
pub(crate) fn decode_heard<F: Fn(u16) -> u8>(addr: u16, fetch: &F) -> (out: (
    Insn,
    Ghost<Map<u16, u8>>,
))
    requires
        willing(fetch),
    ensures
        heard_from(fetch, out.1@),
        forall|a: u16| #[trigger] out.1@.contains_key(a) <==> among(addr, out.0.len as int, a),
        forall|mem: spec_fn(u16) -> u8| #[trigger]
            agrees(mem, out.1@) ==> out.0 == insn_at(mem, addr),
        1 <= out.0.len <= 3,
        out.0.addr == addr,
{
    let opcode: u8 = fetch(addr);
    let len: u8 = LENGTHS[opcode as usize];
    proof {
        law_lengths(opcode);
    }
    let imm8: u8 = if len >= 2 {
        fetch(addr.wrapping_add(1))
    } else {
        0
    };
    let high: u8 = if len >= 3 {
        fetch(addr.wrapping_add(2))
    } else {
        0
    };
    let imm16: u16 = if len >= 3 {
        imm8 as u16 + 256 * (high as u16)
    } else {
        0
    };
    let ghost heard = bytes_heard(addr, len as int, opcode, imm8, high);
    proof {
        lemma_bytes_heard(addr, len as int, opcode, imm8, high);
    }
    let cb: u8 = if opcode == 0xcb { imm8 } else { 0 };
    let flow = flow_after(opcode, imm8, imm16, addr.wrapping_add(len as u16));
    let insn = Insn { addr, opcode, cb, imm8, imm16, len, flow };
    assert forall|mem: spec_fn(u16) -> u8| #[trigger] agrees(mem, heard) implies insn == insn_at(
        mem,
        addr,
    ) by {
        lemma_agrees(mem, addr, len as int, opcode, imm8, high);
    }
    (insn, Ghost(heard))
}

} // verus!
