//! End-to-end checks that translated x86-64 computes what the SM83 would have.
//!
//! Each test assembles a short program, converts it, runs the machine code that comes
//! out and inspects the resulting machine state. The machine code runs on [`Cpu`], an
//! interpreter for the few x86-64 forms that the encoder emits, which decodes the
//! arena's bytes and reaches the hardware through the library's helpers.

use gbtoexe::convert::translate_ahead_of_time;
use gbtoexe::hw::{Button, Cartridge, Config, Mmu};
use gbtoexe::payload::settings::Settings;
use gbtoexe::payload::{build, extract, to_import};
use gbtoexe::recomp::exec::BlockKey;
use gbtoexe::recomp::machine::{Emu, Turn, FRAME_BUDGET};
use gbtoexe::recomp::translate::build_trampoline;
use gbtoexe::recomp::GbState;

// ---- a small x86-64 processor --------------------------------------------

const STATE_AT: u64 = 0x1_0000;
const TABLE_AT: u64 = 0x10_0000;
const STACK_AT: u64 = 0x20_0000;
const STACK_LEN: usize = 0x1000;
const ARENA_AT: u64 = 0x4000_0000;
const HELPERS_AT: u64 = 0x9000_0000;
const HOST_RETURN: u64 = 0xdead_0000;

const OFF_READ8: usize = 0x18;
const OFF_JUMP_TABLE: usize = 0x40;
const OFF_SCRATCH: usize = 0x50;

#[derive(Clone, Copy)]
enum Place {
    Reg(usize),
    Mem(u64),
}

struct Cpu<'a> {
    emu: &'a mut Emu,
    regs: [u64; 16],
    rip: u64,
    cf: bool,
    zf: bool,
    sf: bool,
    of: bool,
    state: [u8; 0x60],
    stack: Vec<u8>,
    rex: u8,
    wide16: bool,
}

fn mask(size: usize) -> u64 {
    if size == 8 {
        u64::MAX
    } else {
        (1u64 << (size * 8)) - 1
    }
}

fn pack(st: &GbState) -> [u8; 0x60] {
    let mut out = [0u8; 0x60];
    out[0] = st.c;
    out[1] = st.b;
    out[2] = st.e;
    out[3] = st.d;
    out[4] = st.l;
    out[5] = st.h;
    out[6..8].copy_from_slice(&st.sp.to_le_bytes());
    out[8..10].copy_from_slice(&st.pc.to_le_bytes());
    out[10] = st.a;
    out[11] = st.f;
    out[12] = st.ime;
    out[13] = st.ime_delay;
    out[14] = st.halted;
    out[15] = st.exit;
    out[16..20].copy_from_slice(&st.pending.to_le_bytes());
    out[20..24].copy_from_slice(&st.bank_gen.to_le_bytes());
    for slot in 0..5usize {
        let at = OFF_READ8 + slot * 8;
        out[at..at + 8].copy_from_slice(&(HELPERS_AT + slot as u64).to_le_bytes());
    }
    out[OFF_JUMP_TABLE..OFF_JUMP_TABLE + 8].copy_from_slice(&TABLE_AT.to_le_bytes());
    out[OFF_SCRATCH..OFF_SCRATCH + 4].copy_from_slice(&st.scratch.to_le_bytes());
    out
}

fn unpack(s: &[u8; 0x60]) -> GbState {
    GbState {
        c: s[0],
        b: s[1],
        e: s[2],
        d: s[3],
        l: s[4],
        h: s[5],
        sp: u16::from_le_bytes([s[6], s[7]]),
        pc: u16::from_le_bytes([s[8], s[9]]),
        a: s[10],
        f: s[11],
        ime: s[12],
        ime_delay: s[13],
        halted: s[14],
        exit: s[15],
        pending: u32::from_le_bytes([s[16], s[17], s[18], s[19]]),
        bank_gen: u32::from_le_bytes([s[20], s[21], s[22], s[23]]),
        scratch: u32::from_le_bytes([s[80], s[81], s[82], s[83]]),
    }
}

impl Cpu<'_> {
    fn load_mem(&self, addr: u64, size: usize) -> u64 {
        let mut bytes = [0u8; 8];
        for i in 0..size {
            let at = addr + i as u64;
            bytes[i] = if at >= STATE_AT && at < STATE_AT + 0x60 {
                self.state[(at - STATE_AT) as usize]
            } else if at >= TABLE_AT && at < TABLE_AT + 16 * 4096 {
                let off = (at - TABLE_AT) as usize;
                let entry = self.emu.host.jump_table[off / 16];
                let mut raw = [0u8; 16];
                raw[0..4].copy_from_slice(&entry.pc.to_le_bytes());
                raw[4..8].copy_from_slice(&entry.gen.to_le_bytes());
                raw[8..16].copy_from_slice(&entry.target.to_le_bytes());
                raw[off % 16]
            } else if at >= STACK_AT && at < STACK_AT + STACK_LEN as u64 {
                self.stack[(at - STACK_AT) as usize]
            } else {
                panic!("read of unmapped memory at {at:#x}")
            };
        }
        u64::from_le_bytes(bytes)
    }

    fn store_mem(&mut self, addr: u64, size: usize, value: u64) {
        let bytes = value.to_le_bytes();
        for i in 0..size {
            let at = addr + i as u64;
            if at >= STATE_AT && at < STATE_AT + 0x60 {
                self.state[(at - STATE_AT) as usize] = bytes[i];
            } else if at >= STACK_AT && at < STACK_AT + STACK_LEN as u64 {
                self.stack[(at - STACK_AT) as usize] = bytes[i];
            } else {
                panic!("write to unmapped memory at {at:#x}")
            }
        }
    }

    fn load(&self, place: Place, size: usize) -> u64 {
        match place {
            Place::Reg(r) => {
                assert!(size != 1 || r < 4 || self.rex != 0, "a high-byte register");
                self.regs[r] & mask(size)
            }
            Place::Mem(addr) => self.load_mem(addr, size),
        }
    }

    fn store(&mut self, place: Place, size: usize, value: u64) {
        match place {
            Place::Reg(r) => {
                assert!(size != 1 || r < 4 || self.rex != 0, "a high-byte register");
                let value = value & mask(size);
                // A 32-bit write clears the upper half; narrower ones leave it alone.
                self.regs[r] = if size >= 4 {
                    value
                } else {
                    (self.regs[r] & !mask(size)) | value
                };
            }
            Place::Mem(addr) => self.store_mem(addr, size, value),
        }
    }

    fn fetch(&mut self) -> u8 {
        let at = (self.rip - ARENA_AT) as usize;
        self.rip += 1;
        self.emu.host.cache.arena()[at]
    }

    fn fetch32(&mut self) -> u32 {
        let bytes = [self.fetch(), self.fetch(), self.fetch(), self.fetch()];
        u32::from_le_bytes(bytes)
    }

    fn immediate(&mut self, size: usize) -> u64 {
        match size {
            1 => self.fetch() as u64,
            2 => u16::from_le_bytes([self.fetch(), self.fetch()]) as u64,
            4 => self.fetch32() as u64,
            _ => self.fetch32() as i32 as i64 as u64,
        }
    }

    /// The register field and the operand of a ModRM byte.
    fn modrm(&mut self) -> (usize, Place) {
        let byte = self.fetch();
        let reg = ((byte >> 3) & 7) as usize | if self.rex & 4 != 0 { 8 } else { 0 };
        let low = (byte & 7) as usize;
        let base = low | if self.rex & 1 != 0 { 8 } else { 0 };
        let place = match byte >> 6 {
            3 => Place::Reg(base),
            mode => {
                assert!(low != 4, "a SIB byte");
                assert!(mode != 0 || low != 5, "a RIP-relative operand");
                let disp = match mode {
                    0 => 0i64,
                    1 => self.fetch() as i8 as i64,
                    _ => self.fetch32() as i32 as i64,
                };
                Place::Mem(self.regs[base].wrapping_add(disp as u64))
            }
        };
        (reg, place)
    }

    fn width(&self) -> usize {
        if self.rex & 8 != 0 {
            8
        } else if self.wide16 {
            2
        } else {
            4
        }
    }

    fn result_flags(&mut self, value: u64, size: usize) {
        self.zf = value & mask(size) == 0;
        self.sf = (value >> (size * 8 - 1)) & 1 != 0;
    }

    fn alu(&mut self, op: u8, a: u64, b: u64, size: usize) -> u64 {
        let m = mask(size) as u128;
        let sign = |v: u64| (v >> (size * 8 - 1)) & 1 != 0;
        let carry = self.cf as u128;
        let r = match op {
            0 | 2 => {
                let wide = a as u128 + b as u128 + if op == 2 { carry } else { 0 };
                self.cf = wide > m;
                let r = (wide & m) as u64;
                self.of = sign(a) == sign(b) && sign(r) != sign(a);
                r
            }
            3 | 5 | 7 => {
                let sub = b as u128 + if op == 3 { carry } else { 0 };
                self.cf = (a as u128) < sub;
                let r = ((a as u128).wrapping_sub(sub) & m) as u64;
                self.of = sign(a) != sign(b) && sign(r) != sign(a);
                r
            }
            _ => {
                self.cf = false;
                self.of = false;
                match op {
                    1 => a | b,
                    4 => a & b,
                    _ => a ^ b,
                }
            }
        };
        self.result_flags(r, size);
        r
    }

    fn holds(&self, cc: u8) -> bool {
        let yes = match cc >> 1 {
            0 => self.of,
            1 => self.cf,
            2 => self.zf,
            3 => self.cf || self.zf,
            4 => self.sf,
            6 => self.sf != self.of,
            7 => self.zf || self.sf != self.of,
            _ => panic!("condition {cc}"),
        };
        yes != (cc & 1 != 0)
    }

    fn push(&mut self, value: u64) {
        self.regs[4] -= 8;
        let at = self.regs[4];
        self.store_mem(at, 8, value);
    }

    fn pop(&mut self) -> u64 {
        let at = self.regs[4];
        self.regs[4] += 8;
        self.load_mem(at, 8)
    }

    fn shift(&mut self, kind: u8, a: u64, amount: u8, size: usize) -> u64 {
        let bits = (size * 8) as u32;
        let n = amount as u32;
        assert!(n > 0 && n < bits);
        let r = match kind {
            4 => {
                self.cf = (a >> (bits - n)) & 1 != 0;
                a << n
            }
            5 => {
                self.cf = (a >> (n - 1)) & 1 != 0;
                a >> n
            }
            7 => {
                self.cf = (a >> (n - 1)) & 1 != 0;
                let up = 64 - bits;
                (((a << up) as i64) >> up >> n) as u64
            }
            0 => {
                let r = (a << n) | (a >> (bits - n));
                self.cf = r & 1 != 0;
                return r & mask(size);
            }
            1 => {
                let r = (a >> n) | (a << (bits - n));
                self.cf = (r >> (bits - 1)) & 1 != 0;
                return r & mask(size);
            }
            other => panic!("shift kind {other}"),
        } & mask(size);
        self.result_flags(r, size);
        r
    }

    /// A call into the helper table, by the Windows convention.
    fn helper(&mut self, slot: u64) {
        assert!(self.regs[4] % 16 == 0, "a helper was called on a misaligned stack");
        assert_eq!(self.regs[1], STATE_AT, "the first argument is the state");
        let mut st = unpack(&self.state);
        let addr = self.regs[2] as u16;
        let value = self.regs[8] as u8;
        let mut rax = 0x5555_aaaa_5555_aaaa;
        let host = &mut self.emu.host;
        match slot {
            0 => rax = (rax & !0xff) | host.helper_read(&mut st, addr) as u64,
            1 => host.helper_write(&mut st, addr, value),
            2 => host.helper_sync(&mut st),
            3 => host.helper_halt(&mut st),
            4 => host.helper_stop(&mut st),
            other => panic!("helper {other}"),
        }
        self.state = pack(&st);
        // The callee may leave anything in the volatile registers.
        self.regs[0] = rax;
        for r in [1, 2, 8, 9, 10, 11] {
            self.regs[r] = 0xdddd_dddd_dddd_dd00 + r as u64;
        }
        self.cf = true;
        self.zf = true;
        self.sf = true;
    }

    fn call(&mut self, target: u64) {
        if target >= HELPERS_AT && target < HELPERS_AT + 5 {
            self.helper(target - HELPERS_AT);
        } else {
            let back = self.rip;
            self.push(back);
            self.rip = target;
        }
    }

    fn step(&mut self) {
        self.rex = 0;
        self.wide16 = false;
        let mut op = self.fetch();
        if op == 0x66 {
            self.wide16 = true;
            op = self.fetch();
        }
        if op & 0xf0 == 0x40 {
            self.rex = op;
            op = self.fetch();
        }
        let w = self.width();
        match op {
            0x00..=0x3b if op & 7 <= 3 => {
                let size = if op & 1 == 0 { 1 } else { w };
                let kind = op >> 3;
                let (reg, place) = self.modrm();
                let (dst, src) = if op & 2 == 0 {
                    (place, Place::Reg(reg))
                } else {
                    (Place::Reg(reg), place)
                };
                let (a, b) = (self.load(dst, size), self.load(src, size));
                let r = self.alu(kind, a, b, size);
                if kind != 7 {
                    self.store(dst, size, r);
                }
            }
            0x80 | 0x81 | 0x83 => {
                let size = if op == 0x80 { 1 } else { w };
                let (kind, place) = self.modrm();
                let value = if op == 0x83 {
                    self.fetch() as i8 as i64 as u64 & mask(size)
                } else {
                    self.immediate(size) & mask(size)
                };
                let a = self.load(place, size);
                let kind = kind as u8 & 7;
                let r = self.alu(kind, a, value, size);
                if kind != 7 {
                    self.store(place, size, r);
                }
            }
            0x84 | 0x85 => {
                let size = if op == 0x84 { 1 } else { w };
                let (reg, place) = self.modrm();
                let (a, b) = (self.load(place, size), self.load(Place::Reg(reg), size));
                self.alu(4, a, b, size);
            }
            0x88 | 0x89 => {
                let size = if op == 0x88 { 1 } else { w };
                let (reg, place) = self.modrm();
                let value = self.load(Place::Reg(reg), size);
                self.store(place, size, value);
            }
            0x8a | 0x8b => {
                let size = if op == 0x8a { 1 } else { w };
                let (reg, place) = self.modrm();
                let value = self.load(place, size);
                self.store(Place::Reg(reg), size, value);
            }
            0x8d => {
                let (reg, place) = self.modrm();
                match place {
                    Place::Mem(addr) => self.store(Place::Reg(reg), w, addr),
                    Place::Reg(_) => panic!("lea of a register"),
                }
            }
            0xb8..=0xbf => {
                let reg = (op & 7) as usize | if self.rex & 1 != 0 { 8 } else { 0 };
                let value = if w == 8 {
                    self.fetch32() as u64 | (self.fetch32() as u64) << 32
                } else {
                    self.fetch32() as u64
                };
                self.regs[reg] = value;
            }
            0xc0 | 0xc1 => {
                let size = if op == 0xc0 { 1 } else { w };
                let (kind, place) = self.modrm();
                let amount = self.fetch();
                let a = self.load(place, size);
                let r = self.shift(kind as u8 & 7, a, amount, size);
                self.store(place, size, r);
            }
            0xc3 => self.rip = self.pop(),
            0xc6 | 0xc7 => {
                let size = if op == 0xc6 { 1 } else { w };
                let (_, place) = self.modrm();
                let value = self.immediate(size);
                self.store(place, size, value);
            }
            0x50..=0x57 => {
                let reg = (op & 7) as usize | if self.rex & 1 != 0 { 8 } else { 0 };
                let value = self.regs[reg];
                self.push(value);
            }
            0x58..=0x5f => {
                let reg = (op & 7) as usize | if self.rex & 1 != 0 { 8 } else { 0 };
                let value = self.pop();
                self.regs[reg] = value;
            }
            0xe9 => {
                let rel = self.fetch32() as i32 as i64;
                self.rip = self.rip.wrapping_add(rel as u64);
            }
            0xf6 | 0xf7 => {
                let size = if op == 0xf6 { 1 } else { w };
                let (kind, place) = self.modrm();
                match kind & 7 {
                    0 => {
                        let value = self.immediate(size) & mask(size);
                        let a = self.load(place, size);
                        self.alu(4, a, value, size);
                    }
                    2 => {
                        let a = self.load(place, size);
                        self.store(place, size, !a);
                    }
                    other => panic!("group 3 operation {other}"),
                }
            }
            0xfe | 0xff => {
                let size = if op == 0xfe { 1 } else { w };
                let (kind, place) = self.modrm();
                match kind & 7 {
                    0 | 1 => {
                        let carry = self.cf;
                        let a = self.load(place, size);
                        let r = self.alu(if kind & 7 == 0 { 0 } else { 5 }, a, 1, size);
                        self.store(place, size, r);
                        self.cf = carry;
                    }
                    2 => {
                        let target = self.load(place, 8);
                        self.call(target);
                    }
                    4 => self.rip = self.load(place, 8),
                    other => panic!("group 5 operation {other}"),
                }
            }
            0x0f => {
                let second = self.fetch();
                match second {
                    0x80..=0x8f => {
                        let rel = self.fetch32() as i32 as i64;
                        if self.holds(second & 15) {
                            self.rip = self.rip.wrapping_add(rel as u64);
                        }
                    }
                    0x90..=0x9f => {
                        let (_, place) = self.modrm();
                        let value = self.holds(second & 15) as u64;
                        self.store(place, 1, value);
                    }
                    0xb6 | 0xb7 => {
                        let size = if second == 0xb6 { 1 } else { 2 };
                        let (reg, place) = self.modrm();
                        let value = self.load(place, size);
                        self.store(Place::Reg(reg), 4, value);
                    }
                    other => panic!("opcode 0f {other:02x}"),
                }
            }
            other => panic!("opcode {other:02x}"),
        }
    }
}

/// Runs the translated code at `offset` of the arena until it comes back.
fn run_native(emu: &mut Emu, offset: usize) {
    let mut regs = [0u64; 16];
    regs[1] = STATE_AT;
    regs[2] = ARENA_AT + offset as u64;
    regs[3] = 0x3333;
    regs[5] = 0x5555;
    regs[4] = STACK_AT + STACK_LEN as u64 - 8;
    let state = pack(&emu.state);
    let rip = ARENA_AT + emu.host.cache.trampoline() as u64;
    let mut cpu = Cpu {
        emu,
        regs,
        rip,
        cf: false,
        zf: false,
        sf: false,
        of: false,
        state,
        stack: vec![0; STACK_LEN],
        rex: 0,
        wide16: false,
    };
    let top = cpu.regs[4];
    cpu.store_mem(top, 8, HOST_RETURN);
    while cpu.rip != HOST_RETURN {
        cpu.step();
    }
    assert_eq!(cpu.regs[3], 0x3333, "the host's RBX");
    assert_eq!(cpu.regs[5], 0x5555, "the host's RBP");
    assert_eq!(cpu.regs[4], top + 8, "the host's stack pointer");
    let st = unpack(&cpu.state);
    cpu.emu.state = st;
}

/// Advance by one block, or by one idle cycle if the CPU is not running.
fn step(emu: &mut Emu) {
    match emu.begin() {
        Turn::Idle => {}
        Turn::Run(offset) => {
            run_native(emu, offset);
            emu.finish();
        }
        Turn::Full => panic!("code arena overflow"),
    }
}

/// A game with `arena` bytes of room for translated code.
fn start(rom: Vec<u8>, config: &Config, arena: usize) -> Emu {
    let mut emu = match Emu::with_arena(rom, config, arena) {
        Ok(emu) => emu,
        Err(e) => panic!("{}", e.message()),
    };
    emu.set_base(ARENA_AT);
    emu
}

/// Wrap a program in a minimal cartridge, entered at 0x0150.
fn cartridge(program: &[u8]) -> Vec<u8> {
    let mut rom = vec![0u8; 0x8000];
    rom[0x100..0x104].copy_from_slice(&[0x00, 0xc3, 0x50, 0x01]); // NOP; JP 0x0150
    rom[0x147] = 0x00; // ROM only, no mapper
    rom[0x150..0x150 + program.len()].copy_from_slice(program);
    let sum = rom[0x134..0x14d]
        .iter()
        .fold(0u8, |acc, &b| acc.wrapping_sub(b).wrapping_sub(1));
    rom[0x14d] = sum;
    rom
}

/// Run until the program halts. Returns the machine so state can be inspected.
fn run(program: &[u8]) -> Emu {
    // A small arena keeps the test suite from reserving gigabytes.
    let mut emu = start(cartridge(program), &Config::default(), 4 << 20);
    for _ in 0..200_000 {
        if emu.state.halted != 0 || emu.stopped || emu.fault.is_some() {
            break;
        }
        step(&mut emu);
    }
    assert!(emu.fault.is_none(), "faulted: {:?}", emu.fault);
    assert!(emu.state.halted != 0, "program never halted");
    emu
}

const HALT: u8 = 0x76;

#[test]
fn addition_sets_the_half_carry() {
    // LD A,0x0F ; ADD A,0x01
    let emu = run(&[0x3e, 0x0f, 0xc6, 0x01, HALT]);
    assert_eq!(emu.state.a, 0x10);
    assert_eq!(emu.state.f & 0x20, 0x20, "H should be set");
    assert_eq!(emu.state.f & 0x80, 0x00, "Z should be clear");
    assert_eq!(emu.state.f & 0x10, 0x00, "C should be clear");
}

#[test]
fn addition_carries_out_of_the_byte() {
    // LD A,0xFF ; ADD A,0x02
    let emu = run(&[0x3e, 0xff, 0xc6, 0x02, HALT]);
    assert_eq!(emu.state.a, 0x01);
    assert_eq!(emu.state.f & 0x10, 0x10, "C should be set");
    assert_eq!(emu.state.f & 0x20, 0x20, "H should be set");
}

#[test]
fn subtraction_borrows_and_sets_n() {
    // LD A,0x10 ; SUB 0x01
    let emu = run(&[0x3e, 0x10, 0xd6, 0x01, HALT]);
    assert_eq!(emu.state.a, 0x0f);
    assert_eq!(emu.state.f & 0x40, 0x40, "N should be set");
    assert_eq!(emu.state.f & 0x20, 0x20, "H should be set");
    assert_eq!(emu.state.f & 0x10, 0x00, "C should be clear");
}

#[test]
fn subtract_with_carry_handles_the_full_borrow() {
    // LD A,0x00 ; SCF ; SBC A,0xFF  -> 0x00 - 0xFF - 1 = 0x00 with a borrow
    let emu = run(&[0x3e, 0x00, 0x37, 0xde, 0xff, HALT]);
    assert_eq!(emu.state.a, 0x00);
    assert_eq!(emu.state.f & 0x10, 0x10, "C should be set");
    assert_eq!(emu.state.f & 0x80, 0x80, "Z should be set");
}

#[test]
fn compare_leaves_the_accumulator_alone() {
    // LD A,0x42 ; CP 0x42
    let emu = run(&[0x3e, 0x42, 0xfe, 0x42, HALT]);
    assert_eq!(emu.state.a, 0x42);
    assert_eq!(emu.state.f & 0x80, 0x80, "Z should be set");
}

#[test]
fn logic_ops_set_their_fixed_flags() {
    // LD A,0xF0 ; AND 0x0F  -> zero, and AND always sets H
    let emu = run(&[0x3e, 0xf0, 0xe6, 0x0f, HALT]);
    assert_eq!(emu.state.a, 0x00);
    assert_eq!(emu.state.f, 0xa0, "expected Z and H only");

    // LD A,0xF0 ; XOR 0xFF
    let emu = run(&[0x3e, 0xf0, 0xee, 0xff, HALT]);
    assert_eq!(emu.state.a, 0x0f);
    assert_eq!(emu.state.f, 0x00);
}

#[test]
fn decimal_adjust_corrects_bcd() {
    // LD A,0x09 ; ADD A,0x01 ; DAA  -> 0x10, not 0x0A
    let emu = run(&[0x3e, 0x09, 0xc6, 0x01, 0x27, HALT]);
    assert_eq!(emu.state.a, 0x10);

    // LD A,0x10 ; SUB 0x01 ; DAA  -> 0x09
    let emu = run(&[0x3e, 0x10, 0xd6, 0x01, 0x27, HALT]);
    assert_eq!(emu.state.a, 0x09);

    // 0x99 + 0x01 rolls over to 0x00 and carries.
    let emu = run(&[0x3e, 0x99, 0xc6, 0x01, 0x27, HALT]);
    assert_eq!(emu.state.a, 0x00);
    assert_eq!(emu.state.f & 0x10, 0x10, "C should be set");
    assert_eq!(emu.state.f & 0x80, 0x80, "Z should be set");
}

#[test]
fn increment_preserves_the_carry_flag() {
    // SCF ; LD B,0xFF ; INC B  -> B wraps to 0, C untouched
    let emu = run(&[0x37, 0x06, 0xff, 0x04, HALT]);
    assert_eq!(emu.state.b, 0x00);
    assert_eq!(emu.state.f & 0x10, 0x10, "C must survive INC");
    assert_eq!(emu.state.f & 0x80, 0x80, "Z should be set");
    assert_eq!(emu.state.f & 0x20, 0x20, "H should be set");
}

#[test]
fn sixteen_bit_add_sets_carry_from_bit_eleven() {
    // LD HL,0x0FFF ; LD BC,0x0001 ; ADD HL,BC
    let emu = run(&[0x21, 0xff, 0x0f, 0x01, 0x01, 0x00, 0x09, HALT]);
    assert_eq!(u16::from_le_bytes([emu.state.l, emu.state.h]), 0x1000);
    assert_eq!(emu.state.f & 0x20, 0x20, "H comes from bit 11");
    assert_eq!(emu.state.f & 0x10, 0x00, "no carry out of 16 bits");
}

#[test]
fn a_counted_loop_runs_the_right_number_of_times() {
    // LD B,10 ; LD A,0 : loop: INC A ; DEC B ; JR NZ,loop
    let emu = run(&[
        0x06, 0x0a, // LD B,10
        0x3e, 0x00, // LD A,0
        0x3c, // INC A
        0x05, // DEC B
        0x20, 0xfc, // JR NZ,-4
        HALT,
    ]);
    assert_eq!(emu.state.a, 10);
    assert_eq!(emu.state.b, 0);
}

#[test]
fn call_and_return_restore_the_stack() {
    // CALL 0x0160 ; HALT   /  0x0160: LD A,0x77 ; RET
    let mut program = vec![0xcd, 0x60, 0x01, HALT];
    program.resize(0x10, 0x00);
    program.extend_from_slice(&[0x3e, 0x77, 0xc9]);
    let emu = run(&program);
    assert_eq!(emu.state.a, 0x77);
    assert_eq!(
        emu.state.sp, 0xfffe,
        "stack pointer should be back where it started"
    );
}

#[test]
fn push_and_pop_round_trip_through_memory() {
    // LD BC,0x1234 ; PUSH BC ; POP DE
    let emu = run(&[0x01, 0x34, 0x12, 0xc5, 0xd1, HALT]);
    assert_eq!(emu.state.d, 0x12);
    assert_eq!(emu.state.e, 0x34);
    assert_eq!(emu.state.sp, 0xfffe);
}

#[test]
fn popping_af_drops_the_low_nibble() {
    // LD BC,0x12FF ; PUSH BC ; POP AF
    let emu = run(&[0x01, 0xff, 0x12, 0xc5, 0xf1, HALT]);
    assert_eq!(emu.state.a, 0x12);
    assert_eq!(emu.state.f, 0xf0, "the bottom four flag bits do not exist");
}

#[test]
fn work_ram_round_trips_a_byte() {
    // LD HL,0xC000 ; LD (HL),0x42 ; LD A,0x00 ; LD A,(HL)
    let emu = run(&[0x21, 0x00, 0xc0, 0x36, 0x42, 0x3e, 0x00, 0x7e, HALT]);
    assert_eq!(emu.state.a, 0x42);
}

#[test]
fn load_increment_walks_up_memory() {
    // Fill 0xC000..0xC004 with 0..4 using LD (HL+),A
    let emu = run(&[
        0x21, 0x00, 0xc0, // LD HL,0xC000
        0x3e, 0x00, // LD A,0
        0x06, 0x05, // LD B,5
        0x22, // LD (HL+),A
        0x3c, // INC A
        0x05, // DEC B
        0x20, 0xfb, // JR NZ,-5
        HALT,
    ]);
    assert_eq!(u16::from_le_bytes([emu.state.l, emu.state.h]), 0xc005);
    for i in 0..5u16 {
        assert_eq!(emu.host.mmu.peek(0xc000 + i), i as u8);
    }
}

#[test]
fn bit_test_reports_a_clear_bit() {
    // LD A,0x7F ; BIT 7,A
    let emu = run(&[0x3e, 0x7f, 0xcb, 0x7f, HALT]);
    assert_eq!(emu.state.f & 0x80, 0x80, "Z set because bit 7 is clear");
    assert_eq!(emu.state.f & 0x20, 0x20, "BIT always sets H");
    assert_eq!(emu.state.a, 0x7f, "BIT must not change the operand");
}

#[test]
fn rotate_through_carry_moves_one_bit_around() {
    // SCF ; LD A,0x00 ; RL A   -> carry rotates into bit 0
    let emu = run(&[0x37, 0x3e, 0x00, 0xcb, 0x17, HALT]);
    assert_eq!(emu.state.a, 0x01);
    assert_eq!(emu.state.f & 0x10, 0x00, "nothing fell out the top");
}

#[test]
fn swap_exchanges_the_nibbles() {
    // LD A,0xAB ; SWAP A
    let emu = run(&[0x3e, 0xab, 0xcb, 0x37, HALT]);
    assert_eq!(emu.state.a, 0xba);
    assert_eq!(emu.state.f, 0x00);
}

#[test]
fn arithmetic_shift_right_keeps_the_sign() {
    // LD A,0x81 ; SRA A
    let emu = run(&[0x3e, 0x81, 0xcb, 0x2f, HALT]);
    assert_eq!(emu.state.a, 0xc0);
    assert_eq!(emu.state.f & 0x10, 0x10, "bit 0 fell into the carry");
}

#[test]
fn set_and_reset_touch_only_one_bit() {
    // LD A,0x00 ; SET 3,A ; RES 0,A
    let emu = run(&[0x3e, 0x00, 0xcb, 0xdf, 0xcb, 0x87, HALT]);
    assert_eq!(emu.state.a, 0x08);
}

#[test]
fn restart_vectors_are_reachable() {
    // The RST 0x08 handler lives in the header area, so build it by hand.
    let mut rom = cartridge(&[0xcf, HALT]); // RST 0x08 ; HALT
    rom[0x08] = 0x3e; // LD A,0x5A
    rom[0x09] = 0x5a;
    rom[0x0a] = 0xc9; // RET
    let sum = rom[0x134..0x14d]
        .iter()
        .fold(0u8, |acc, &b| acc.wrapping_sub(b).wrapping_sub(1));
    rom[0x14d] = sum;

    let mut emu = start(rom, &Config::default(), 4 << 20);
    for _ in 0..10_000 {
        if emu.state.halted != 0 {
            break;
        }
        step(&mut emu);
    }
    assert_eq!(emu.state.a, 0x5a);
}

#[test]
fn a_jump_table_dispatches_through_the_inline_cache() {
    // LD HL,0x0170 ; JP (HL)   /  0x0170: LD A,0x99 ; HALT
    let mut program = vec![0x21, 0x70, 0x01, 0xe9];
    program.resize(0x20, 0x00);
    program.extend_from_slice(&[0x3e, 0x99, HALT]);
    let emu = run(&program);
    assert_eq!(emu.state.a, 0x99);
}

#[test]
fn code_copied_into_ram_runs() {
    // Copy "LD A,0x33 ; RET" to 0xC000, then CALL it. Nothing in the cartridge
    // image contains that block, so it can only come from translating RAM.
    let emu = run(&[
        0x21, 0x00, 0xc0, // LD HL,0xC000
        0x36, 0x3e, 0x23, // LD (HL),0x3E ; INC HL
        0x36, 0x33, 0x23, // LD (HL),0x33 ; INC HL
        0x36, 0xc9, // LD (HL),0xC9   (RET)
        0xcd, 0x00, 0xc0, // CALL 0xC000
        HALT,
    ]);
    assert_eq!(emu.state.a, 0x33);
}

#[test]
fn rewriting_ram_code_retranslates_it() {
    // Run a routine from RAM, overwrite it with a different one, run it again.
    // A stale translation would return the first value both times.
    let emu = run(&[
        0x21, 0x00, 0xc0, // LD HL,0xC000
        0x36, 0x3e, 0x23, // LD (HL),0x3E ; INC HL
        0x36, 0x11, 0x23, // LD (HL),0x11 ; INC HL
        0x36, 0xc9, // LD (HL),0xC9
        0xcd, 0x00, 0xc0, // CALL 0xC000     -> A = 0x11
        0x21, 0x01, 0xc0, // LD HL,0xC001
        0x36, 0x22, // LD (HL),0x22    rewrite the immediate
        0xcd, 0x00, 0xc0, // CALL 0xC000     -> A = 0x22
        HALT,
    ]);
    assert_eq!(emu.state.a, 0x22, "the rewritten routine should have run");
}

#[test]
fn timing_matches_the_hardware_cycle_counts() {
    // NOP is 4 cycles, LD A,d8 is 8, JP nn is 16. Entry costs NOP + JP = 20.
    let mut emu =
        start(cartridge(&[0x00, 0x00, HALT]), &Config::default(), 4 << 20);
    while emu.state.halted == 0 {
        step(&mut emu);
    }
    // 20 to enter, two NOPs at 4 each, and the HALT's own 4.
    assert_eq!(emu.host.mmu.total_cycles(), 20 + 4 + 4 + 4);
}

#[test]
fn memory_access_timing_is_charged_correctly() {
    // LD HL,d16 (12) ; LD (HL),d8 (12) ; HALT (4), after the 20-cycle entry.
    let mut emu = start(
        cartridge(&[0x21, 0x00, 0xc0, 0x36, 0x42, HALT]),
        &Config::default(),
        4 << 20,
    );
    while emu.state.halted == 0 {
        step(&mut emu);
    }
    assert_eq!(emu.host.mmu.total_cycles(), 20 + 12 + 12 + 4);
}

#[test]
fn a_taken_branch_costs_more_than_one_not_taken() {
    // JR NZ over a HALT that is never reached: taken is 12, not taken 8.
    let taken = {
        let mut emu = start(
            // LD A,1 (8) ; OR A (4, clears Z) ; JR NZ,+1 (12) ; HALT
            cartridge(&[0x3e, 0x01, 0xb7, 0x20, 0x01, 0x00, HALT]),
            &Config::default(),
            4 << 20,
        );
        while emu.state.halted == 0 {
            step(&mut emu);
        }
        emu.host.mmu.total_cycles()
    };
    let not_taken = {
        let mut emu = start(
            // LD A,0 (8) ; OR A (4, sets Z) ; JR NZ,+1 (8) ; NOP (4) ; HALT
            cartridge(&[0x3e, 0x00, 0xb7, 0x20, 0x01, 0x00, HALT]),
            &Config::default(),
            4 << 20,
        );
        while emu.state.halted == 0 {
            step(&mut emu);
        }
        emu.host.mmu.total_cycles()
    };
    // The taken path skips a 4-cycle NOP but pays 4 more for the branch.
    assert_eq!(taken, 20 + 8 + 4 + 12 + 4);
    assert_eq!(not_taken, 20 + 8 + 4 + 8 + 4 + 4);
}

#[test]
fn an_illegal_opcode_is_reported_rather_than_run() {
    // 0xDD is not wired to anything; real hardware locks up on it.
    let mut emu = start(cartridge(&[0xdd]), &Config::default(), 4 << 20);
    for _ in 0..100 {
        step(&mut emu);
        if emu.fault.is_some() {
            break;
        }
    }
    let fault = emu.fault.expect("should have reported the bad opcode");
    assert!(fault.contains("0x0150"), "should name the address: {fault}");
    assert!(fault.contains("0xdd"), "should name the opcode: {fault}");
}

#[test]
fn stop_halts_the_processor_without_reporting_a_fault() {
    // STOP with no speed switch armed parks the CPU until input arrives.
    let mut emu = start(cartridge(&[0x10, 0x00]), &Config::default(), 4 << 20);
    for _ in 0..100 {
        step(&mut emu);
        if emu.stopped {
            break;
        }
    }
    assert!(emu.stopped, "STOP should have stopped the processor");
    assert!(emu.fault.is_none(), "STOP is not a fault: {:?}", emu.fault);
}

// ---- the machine around the code -----------------------------------------

#[test]
fn an_interrupt_is_taken_and_returned_from() {
    // LD A,1 ; LDH (0xff),A ; LDH (0x0f),A ; EI ; JR +0 ; LD B,A ; HALT
    let mut rom = cartridge(&[
        0x3e, 0x01, 0xe0, 0xff, 0xe0, 0x0f, 0xfb, 0x18, 0x00, 0x47, HALT,
    ]);
    // The vertical blank's vector: LD A,0x5A ; RETI
    rom[0x40..0x43].copy_from_slice(&[0x3e, 0x5a, 0xd9]);
    let mut emu = start(rom, &Config::default(), 4 << 20);
    for _ in 0..100 {
        if emu.state.halted != 0 {
            break;
        }
        step(&mut emu);
    }
    assert_eq!(emu.state.b, 0x5a, "the handler should have run");
    assert_eq!(emu.state.sp, 0xfffe);
    assert_eq!(emu.state.ime, 1, "RETI turns interrupts back on");
    assert_eq!(emu.host.mmu.iflag & 0x01, 0, "the request is acknowledged");
}

#[test]
fn an_interrupt_pushes_the_program_counter() {
    let mut emu = start(cartridge(&[0x18, 0xfe]), &Config::default(), 1 << 20);
    emu.state.pc = 0x0152;
    emu.state.ime = 1;
    emu.host.mmu.write(0xffff, 0x0c);
    emu.host.mmu.write(0xff0f, 0x0c);
    let before = emu.host.mmu.total_cycles();
    emu.begin();
    // Bit 2, the timer, is ahead of bit 3.
    assert_eq!(emu.state.pc, 0x0050);
    assert_eq!(emu.state.sp, 0xfffc);
    assert_eq!(emu.host.mmu.peek(0xfffd), 0x01);
    assert_eq!(emu.host.mmu.peek(0xfffc), 0x52);
    assert_eq!(emu.state.ime, 0);
    assert_eq!(emu.host.mmu.iflag & 0x0c, 0x08);
    assert_eq!(emu.host.mmu.total_cycles() - before, 20);
}

#[test]
fn a_pending_interrupt_wakes_a_halted_processor() {
    let mut emu = run(&[HALT, 0x3e, 0x07, HALT]);
    step(&mut emu);
    assert_eq!(emu.state.halted, 1, "nothing is pending yet");
    emu.host.mmu.write(0xffff, 0x04);
    emu.host.mmu.write(0xff0f, 0x04);
    for _ in 0..4 {
        step(&mut emu);
    }
    assert_eq!(emu.state.a, 0x07, "execution goes on behind the HALT");
}

#[test]
fn a_mapper_write_makes_cached_targets_stale() {
    let mut emu = start(cartridge(&[HALT]), &Config::default(), 1 << 20);
    let before = emu.state.bank_gen;
    let mut st = emu.state;
    emu.host.helper_write(&mut st, 0x2000, 1);
    assert_eq!(st.bank_gen, before + 1);
    emu.host.helper_write(&mut st, 0xc000, 1);
    assert_eq!(st.bank_gen, before + 1, "no code was there");
}

#[test]
fn a_memory_access_settles_what_is_owed() {
    let mut emu = start(cartridge(&[HALT]), &Config::default(), 1 << 20);
    let mut st = emu.state;
    st.pending = 12;
    assert_eq!(emu.host.helper_read(&mut st, 0x0101), 0xc3);
    assert_eq!(st.pending, 0);
    assert_eq!(emu.host.mmu.total_cycles(), 16);
    st.pending = 8;
    emu.host.helper_write(&mut st, 0xc000, 0x99);
    assert_eq!(emu.host.mmu.total_cycles(), 28);
    assert_eq!(emu.host.mmu.peek(0xc000), 0x99);
    st.pending = 4;
    emu.host.helper_sync(&mut st);
    assert_eq!(emu.host.mmu.total_cycles(), 32);
    emu.host.helper_halt(&mut st);
    assert_eq!(st.halted, 1);
}

#[test]
fn translating_a_ram_block_marks_its_page() {
    let emu = run(&[
        0x21, 0x00, 0xc0, // LD HL,0xC000
        0x36, 0xc9, // LD (HL),0xC9   (RET)
        0xcd, 0x00, 0xc0, // CALL 0xC000
        HALT,
    ]);
    assert!(emu.host.code_pages[0xc0]);
    assert!(!emu.host.code_pages[0xc1]);
}

#[test]
fn a_write_leaves_the_translations_of_other_pages_alone() {
    let mut emu = run(&[
        0x21, 0x00, 0xc0, // LD HL,0xC000
        0x36, 0xc9, // LD (HL),0xC9   (RET)
        0xcd, 0x00, 0xc0, // CALL 0xC000
        HALT,
    ]);
    let key = BlockKey { bank: 0, addr: 0xc000 };
    let mut st = emu.state;
    emu.host.helper_write(&mut st, 0xc100, 0x12);
    assert!(emu.host.cache.lookup(key).is_some());
    assert_eq!(emu.host.mmu.peek(0xc000), 0xc9);
    let before = st.bank_gen;
    emu.host.helper_write(&mut st, 0xc0ff, 0x12);
    assert!(emu.host.cache.lookup(key).is_none());
    assert_eq!(st.bank_gen, before + 1);
    assert!(!emu.host.code_pages[0xc0]);
}

/// A machine that has translated the code at 0xC000.
fn with_ram_code() -> (Emu, BlockKey) {
    let emu = run(&[
        0x21, 0x00, 0xc0, 0x36, 0x3e, 0x23, 0x36, 0x33, 0x23, 0x36, 0xc9, 0xcd, 0x00, 0xc0, HALT,
    ]);
    let key = BlockKey { bank: 0, addr: 0xc000 };
    assert!(emu.host.cache.lookup(key).is_some());
    (emu, key)
}

#[test]
fn a_write_through_the_echo_drops_the_code_it_changes() {
    let (mut emu, key) = with_ram_code();
    let mut st = emu.state.clone();
    let gen = st.bank_gen;
    emu.host.helper_write(&mut st, 0xe001, 0x44);
    assert_eq!(emu.host.mmu.peek(0xc001), 0x44);
    assert!(emu.host.cache.lookup(key).is_none());
    assert_eq!(st.bank_gen, gen.wrapping_add(1));
}

#[test]
fn rewriting_ram_code_through_the_echo_retranslates_it() {
    let emu = run(&[
        0x21, 0x00, 0xc0, 0x36, 0x3e, 0x23, 0x36, 0x11, 0x23, 0x36, 0xc9, // LD A,0x11 ; RET
        0xcd, 0x00, 0xc0, // CALL 0xC000
        0x21, 0x01, 0xe0, 0x36, 0x22, // LD HL,0xE001 ; LD (HL),0x22
        0xcd, 0x00, 0xc0, // CALL 0xC000
        HALT,
    ]);
    assert_eq!(emu.state.a, 0x22);
}

#[test]
fn what_an_interrupt_pushes_drops_the_code_it_changes() {
    let (mut emu, key) = with_ram_code();
    let gen = emu.state.bank_gen;
    emu.state.sp = 0xc003;
    emu.state.ime = 1;
    emu.host.mmu.write(0xffff, 0x04);
    emu.host.mmu.write(0xff0f, 0x04);
    emu.begin();
    assert_eq!(emu.state.sp, 0xc001);
    assert!(emu.host.cache.lookup(key).is_none());
    assert_eq!(emu.state.bank_gen, gen.wrapping_add(1));
}

#[test]
fn the_work_ram_bank_register_makes_cached_targets_stale() {
    let mut rom = cartridge(&[HALT]);
    rom[0x143] = 0xc0;
    for (game, moves) in [(rom, 1), (cartridge(&[HALT]), 0)] {
        let mut emu = start(game, &Config::default(), 1 << 20);
        let mut st = emu.state.clone();
        let gen = st.bank_gen;
        emu.host.helper_write(&mut st, 0xff70, 3);
        assert_eq!(st.bank_gen, gen.wrapping_add(moves));
    }
}

#[test]
fn a_block_past_the_end_of_memory_is_dropped_too() {
    let mut emu = start(cartridge(&[HALT]), &Config::default(), 1 << 20);
    // JP nn with its operand at 0xFFFF and 0x0000.
    emu.host.mmu.write(0xfffe, 0xc3);
    emu.state.pc = 0xfffe;
    assert!(matches!(emu.begin(), Turn::Run(_)));
    let key = BlockKey { bank: 0, addr: 0xfffe };
    assert_eq!(emu.host.cache.lookup(key).map(|info| info.end), Some(1));
    let mut st = emu.state.clone();
    emu.host.helper_write(&mut st, 0xc000, 0);
    emu.host.helper_write(&mut st, 0xfffe, 0x18);
    assert!(emu.host.cache.lookup(key).is_none());
}

#[test]
fn a_looked_up_address_is_in_the_jump_cache() {
    let mut emu = start(cartridge(&[HALT]), &Config::default(), 1 << 20);
    let turn = emu.begin();
    let entry = emu.host.jump_table[0x100];
    assert_eq!(entry.pc, 0x0100);
    assert_eq!(entry.gen, emu.state.bank_gen);
    assert_eq!(turn, Turn::Run((entry.target - ARENA_AT) as usize));
}

#[test]
fn code_translated_ahead_of_time_is_what_runs() {
    // CALL 0x0160 ; HALT   /  0x0160: LD A,0x77 ; RET
    let mut program = vec![0xcd, 0x60, 0x01, HALT];
    program.resize(0x10, 0x00);
    program.extend_from_slice(&[0x3e, 0x77, 0xc9]);
    let rom = cartridge(&program);
    let cart = Cartridge::new(rom.clone()).ok().expect("a whole cartridge");
    let ahead = translate_ahead_of_time(&rom, &cart, 1000, 0).expect("room for everything");

    let image = build(&rom, &Settings::default(), &ahead.code, &ahead.blocks);
    let payload = extract(&image).unwrap();
    let mut emu = start(payload.rom, &Config::default(), 4 << 20);
    emu.install_translated(&payload.code, &to_import(&payload.blocks));
    let blocks = emu.blocks_translated();
    assert_eq!(blocks, ahead.blocks.len());
    assert_eq!(emu.code_bytes(), payload.code.len());
    for _ in 0..100 {
        if emu.state.halted != 0 {
            break;
        }
        step(&mut emu);
    }
    assert_eq!(emu.state.a, 0x77);
    assert_eq!(emu.blocks_translated(), blocks, "nothing was left to translate");
}

#[test]
fn pretranslated_blocks_are_counted_once() {
    let mut emu = start(cartridge(&[HALT]), &Config::default(), 4 << 20);
    let key = BlockKey { bank: 0, addr: 0x0150 };
    let entry = BlockKey { bank: 0, addr: 0x0100 };
    assert_eq!(emu.pretranslate(&[key, entry, key]), Some(2));
    assert_eq!(emu.pretranslate(&[key]), Some(0));
    assert_eq!(emu.blocks_translated(), 2);
}

#[test]
fn an_arena_without_room_is_reported() {
    let mut emu = start(cartridge(&[HALT]), &Config::default(), build_trampoline().len());
    assert_eq!(emu.begin(), Turn::Full);
    let key = BlockKey { bank: 0, addr: 0x0150 };
    assert_eq!(emu.pretranslate(&[key]), None);
}

#[test]
fn a_frame_ends_when_the_screen_is_finished() {
    let mut emu = start(cartridge(&[0x18, 0xfe]), &Config::default(), 4 << 20);
    let start = emu.start_frame();
    assert!(!emu.frame_over(start));
    let mut turns = 0;
    while !emu.frame_over(start) {
        step(&mut emu);
        turns += 1;
        assert!(turns < 100_000, "the frame never ended");
    }
    assert!(emu.host.mmu.ppu.has_frame());
    assert_eq!(emu.framebuffer().len(), 160 * 144);
    let cycles: u64 = emu.take_sound().iter().map(|m| m.cycles).sum();
    assert_eq!(cycles, emu.host.mmu.total_cycles());
}

#[test]
fn a_frame_with_the_screen_off_ends_at_its_budget() {
    let mut emu = start(cartridge(&[0x18, 0xfe]), &Config::default(), 4 << 20);
    emu.host.mmu.write(0xff40, 0x00);
    let start = emu.start_frame();
    emu.host.mmu.tick(FRAME_BUDGET as u32);
    assert!(!emu.frame_over(start));
    emu.host.mmu.tick(4);
    assert!(emu.frame_over(start));
}

#[test]
fn a_battery_save_goes_through_the_machine() {
    let mut rom = cartridge(&[HALT]);
    rom[0x147] = 0x03;
    rom[0x149] = 0x02;
    let mut emu = start(rom.clone(), &Config::default(), 1 << 20);
    assert!(emu.has_battery());
    assert!(!emu.save_dirty());
    emu.host.mmu.write(0x0000, 0x0a);
    emu.host.mmu.write(0xa005, 0x55);
    assert!(emu.save_dirty());
    assert!(emu.save_due());
    let saved = emu.save_data();
    emu.clear_save_dirty();
    assert!(!emu.save_dirty());
    assert!(!emu.save_due());
    let mut back = start(rom, &Config::default(), 1 << 20);
    back.load_save(&saved);
    back.host.mmu.write(0x0000, 0x0a);
    assert_eq!(back.host.mmu.read(0xa005), 0x55);
}

#[test]
fn buttons_reach_the_joypad() {
    let mut emu = start(cartridge(&[HALT]), &Config::default(), 1 << 20);
    emu.host.mmu.write(0xff00, 0x10);
    emu.set_button(Button::Start, true);
    assert_eq!(emu.host.mmu.read(0xff00) & 0x0f, 0x07);
    emu.set_button(Button::Start, false);
    assert_eq!(emu.host.mmu.read(0xff00) & 0x0f, 0x0f);
    assert_eq!(emu.info().rom_banks, 2);
    assert!(emu.context().lower_window_fixed);
}

#[test]
fn a_machine_without_an_arena_is_refused() {
    match Emu::with_arena(cartridge(&[HALT]), &Config::default(), 0) {
        Ok(_) => panic!("there is nowhere to put code"),
        Err(e) => assert_eq!(e.message(), "could not reserve memory for translated code"),
    }
}

// ---- differential testing --------------------------------------------------
//
// The interpreter here exists only as an oracle: it is deliberately written
// straight from the instruction set documentation, with no shared code with the
// translator, so agreement between the two is real evidence. Every opcode is
// run from several randomised starting states and the resulting registers,
// flags and memory are compared byte for byte.

const FLAG_Z: u8 = 0x80;
const FLAG_N: u8 = 0x40;
const FLAG_H: u8 = 0x20;
const FLAG_C: u8 = 0x10;

/// Registers, in the order the comparison reports them.
#[derive(Debug, Clone, Copy, PartialEq, Eq, Default)]
struct Regs {
    a: u8,
    f: u8,
    b: u8,
    c: u8,
    d: u8,
    e: u8,
    h: u8,
    l: u8,
    sp: u16,
}

/// A plainly written SM83 interpreter used only to check the translator.
struct Reference<'a> {
    r: Regs,
    pc: u16,
    mmu: &'a mut Mmu,
}

impl Reference<'_> {
    fn hl(&self) -> u16 {
        u16::from_be_bytes([self.r.h, self.r.l])
    }
    fn bc(&self) -> u16 {
        u16::from_be_bytes([self.r.b, self.r.c])
    }
    fn de(&self) -> u16 {
        u16::from_be_bytes([self.r.d, self.r.e])
    }
    fn set_hl(&mut self, v: u16) {
        self.r.h = (v >> 8) as u8;
        self.r.l = v as u8;
    }

    fn flag(&self, m: u8) -> bool {
        self.r.f & m != 0
    }
    fn set_flag(&mut self, m: u8, on: bool) {
        if on {
            self.r.f |= m
        } else {
            self.r.f &= !m
        }
    }

    fn fetch(&mut self) -> u8 {
        let v = self.mmu.read(self.pc);
        self.pc = self.pc.wrapping_add(1);
        v
    }
    fn fetch16(&mut self) -> u16 {
        let lo = self.fetch();
        let hi = self.fetch();
        u16::from_le_bytes([lo, hi])
    }

    fn get_r(&mut self, i: u8) -> u8 {
        match i {
            0 => self.r.b,
            1 => self.r.c,
            2 => self.r.d,
            3 => self.r.e,
            4 => self.r.h,
            5 => self.r.l,
            6 => self.mmu.read(self.hl()),
            _ => self.r.a,
        }
    }

    fn set_r(&mut self, i: u8, v: u8) {
        match i {
            0 => self.r.b = v,
            1 => self.r.c = v,
            2 => self.r.d = v,
            3 => self.r.e = v,
            4 => self.r.h = v,
            5 => self.r.l = v,
            6 => {
                let addr = self.hl();
                self.mmu.write(addr, v)
            }
            _ => self.r.a = v,
        }
    }

    fn alu(&mut self, op: u8, v: u8) {
        let a = self.r.a;
        match op {
            0 | 1 => {
                let carry = if op == 1 { self.flag(FLAG_C) as u16 } else { 0 };
                let sum = a as u16 + v as u16 + carry;
                self.r.a = sum as u8;
                self.r.f = 0;
                self.set_flag(FLAG_Z, self.r.a == 0);
                self.set_flag(FLAG_H, (a & 0xf) as u16 + (v & 0xf) as u16 + carry > 0xf);
                self.set_flag(FLAG_C, sum > 0xff);
            }
            2 | 3 | 7 => {
                let carry = if op == 3 { self.flag(FLAG_C) as i16 } else { 0 };
                let diff = a as i16 - v as i16 - carry;
                let result = diff as u8;
                let half = (a & 0xf) as i16 - (v & 0xf) as i16 - carry;
                self.r.f = FLAG_N;
                self.set_flag(FLAG_Z, result == 0);
                self.set_flag(FLAG_H, half < 0);
                self.set_flag(FLAG_C, diff < 0);
                if op != 7 {
                    self.r.a = result;
                }
            }
            4 => {
                self.r.a &= v;
                self.r.f = FLAG_H;
                self.set_flag(FLAG_Z, self.r.a == 0);
            }
            5 => {
                self.r.a ^= v;
                self.r.f = 0;
                self.set_flag(FLAG_Z, self.r.a == 0);
            }
            _ => {
                self.r.a |= v;
                self.r.f = 0;
                self.set_flag(FLAG_Z, self.r.a == 0);
            }
        }
    }

    fn rotate(&mut self, kind: u8, v: u8) -> (u8, bool) {
        match kind {
            0 => (v.rotate_left(1), v & 0x80 != 0),
            1 => (v.rotate_right(1), v & 1 != 0),
            2 => ((v << 1) | self.flag(FLAG_C) as u8, v & 0x80 != 0),
            3 => ((v >> 1) | ((self.flag(FLAG_C) as u8) << 7), v & 1 != 0),
            4 => (v << 1, v & 0x80 != 0),
            5 => (((v as i8) >> 1) as u8, v & 1 != 0),
            6 => (v.rotate_right(4), false),
            _ => (v >> 1, v & 1 != 0),
        }
    }

    fn step(&mut self) {
        let op = self.fetch();
        match op {
            0x00 => {}
            0x01 | 0x11 | 0x21 | 0x31 => {
                let v = self.fetch16();
                match op {
                    0x01 => {
                        self.r.b = (v >> 8) as u8;
                        self.r.c = v as u8;
                    }
                    0x11 => {
                        self.r.d = (v >> 8) as u8;
                        self.r.e = v as u8;
                    }
                    0x21 => self.set_hl(v),
                    _ => self.r.sp = v,
                }
            }
            0x02 => {
                let addr = self.bc();
                self.mmu.write(addr, self.r.a)
            }
            0x12 => {
                let addr = self.de();
                self.mmu.write(addr, self.r.a)
            }
            0x22 => {
                let addr = self.hl();
                self.mmu.write(addr, self.r.a);
                self.set_hl(addr.wrapping_add(1));
            }
            0x32 => {
                let addr = self.hl();
                self.mmu.write(addr, self.r.a);
                self.set_hl(addr.wrapping_sub(1));
            }
            0x0a => {
                let addr = self.bc();
                self.r.a = self.mmu.read(addr)
            }
            0x1a => {
                let addr = self.de();
                self.r.a = self.mmu.read(addr)
            }
            0x2a => {
                let addr = self.hl();
                self.r.a = self.mmu.read(addr);
                self.set_hl(addr.wrapping_add(1));
            }
            0x3a => {
                let addr = self.hl();
                self.r.a = self.mmu.read(addr);
                self.set_hl(addr.wrapping_sub(1));
            }
            0x03 | 0x13 | 0x23 | 0x33 | 0x0b | 0x1b | 0x2b | 0x3b => {
                let delta: u16 = if op & 0xf == 3 { 1 } else { 0xffff };
                match op >> 4 {
                    0 => {
                        let v = self.bc().wrapping_add(delta);
                        self.r.b = (v >> 8) as u8;
                        self.r.c = v as u8;
                    }
                    1 => {
                        let v = self.de().wrapping_add(delta);
                        self.r.d = (v >> 8) as u8;
                        self.r.e = v as u8;
                    }
                    2 => {
                        let v = self.hl().wrapping_add(delta);
                        self.set_hl(v);
                    }
                    _ => self.r.sp = self.r.sp.wrapping_add(delta),
                }
            }
            0x09 | 0x19 | 0x29 | 0x39 => {
                let operand = match op >> 4 {
                    0 => self.bc(),
                    1 => self.de(),
                    2 => self.hl(),
                    _ => self.r.sp,
                };
                let hl = self.hl();
                let sum = hl as u32 + operand as u32;
                self.set_flag(FLAG_N, false);
                self.set_flag(FLAG_H, (hl & 0xfff) + (operand & 0xfff) > 0xfff);
                self.set_flag(FLAG_C, sum > 0xffff);
                self.set_hl(sum as u16);
            }
            0x04 | 0x0c | 0x14 | 0x1c | 0x24 | 0x2c | 0x34 | 0x3c => {
                let i = op >> 3;
                let v = self.get_r(i);
                let r = v.wrapping_add(1);
                self.set_flag(FLAG_Z, r == 0);
                self.set_flag(FLAG_N, false);
                self.set_flag(FLAG_H, v & 0xf == 0xf);
                self.set_r(i, r);
            }
            0x05 | 0x0d | 0x15 | 0x1d | 0x25 | 0x2d | 0x35 | 0x3d => {
                let i = op >> 3;
                let v = self.get_r(i);
                let r = v.wrapping_sub(1);
                self.set_flag(FLAG_Z, r == 0);
                self.set_flag(FLAG_N, true);
                self.set_flag(FLAG_H, v & 0xf == 0);
                self.set_r(i, r);
            }
            0x06 | 0x0e | 0x16 | 0x1e | 0x26 | 0x2e | 0x36 | 0x3e => {
                let v = self.fetch();
                self.set_r(op >> 3, v);
            }
            0x07 | 0x0f | 0x17 | 0x1f => {
                let (r, carry) = self.rotate((op >> 3) & 3, self.r.a);
                self.r.a = r;
                self.r.f = if carry { FLAG_C } else { 0 };
            }
            0x27 => {
                let mut adjust = 0u8;
                let mut carry = self.flag(FLAG_C);
                if self.flag(FLAG_H) || (!self.flag(FLAG_N) && self.r.a & 0xf > 9) {
                    adjust |= 0x06;
                }
                if carry || (!self.flag(FLAG_N) && self.r.a > 0x99) {
                    adjust |= 0x60;
                    carry = true;
                }
                self.r.a = if self.flag(FLAG_N) {
                    self.r.a.wrapping_sub(adjust)
                } else {
                    self.r.a.wrapping_add(adjust)
                };
                self.set_flag(FLAG_Z, self.r.a == 0);
                self.set_flag(FLAG_H, false);
                self.set_flag(FLAG_C, carry);
            }
            0x2f => {
                self.r.a = !self.r.a;
                self.set_flag(FLAG_N, true);
                self.set_flag(FLAG_H, true);
            }
            0x37 => {
                self.set_flag(FLAG_N, false);
                self.set_flag(FLAG_H, false);
                self.set_flag(FLAG_C, true);
            }
            0x3f => {
                let c = self.flag(FLAG_C);
                self.set_flag(FLAG_N, false);
                self.set_flag(FLAG_H, false);
                self.set_flag(FLAG_C, !c);
            }
            0x08 => {
                let addr = self.fetch16();
                self.mmu.write(addr, self.r.sp as u8);
                self.mmu.write(addr.wrapping_add(1), (self.r.sp >> 8) as u8);
            }
            0x40..=0x7f => {
                let v = self.get_r(op & 7);
                self.set_r((op >> 3) & 7, v);
            }
            0x80..=0xbf => {
                let v = self.get_r(op & 7);
                self.alu((op >> 3) & 7, v);
            }
            0xc6 | 0xce | 0xd6 | 0xde | 0xe6 | 0xee | 0xf6 | 0xfe => {
                let v = self.fetch();
                self.alu((op >> 3) & 7, v);
            }
            0xc1 | 0xd1 | 0xe1 | 0xf1 => {
                let lo = self.mmu.read(self.r.sp);
                let hi = self.mmu.read(self.r.sp.wrapping_add(1));
                self.r.sp = self.r.sp.wrapping_add(2);
                match op >> 4 {
                    0xc => {
                        self.r.c = lo;
                        self.r.b = hi;
                    }
                    0xd => {
                        self.r.e = lo;
                        self.r.d = hi;
                    }
                    0xe => {
                        self.r.l = lo;
                        self.r.h = hi;
                    }
                    _ => {
                        self.r.f = lo & 0xf0;
                        self.r.a = hi;
                    }
                }
            }
            0xc5 | 0xd5 | 0xe5 | 0xf5 => {
                let (hi, lo) = match op >> 4 {
                    0xc => (self.r.b, self.r.c),
                    0xd => (self.r.d, self.r.e),
                    0xe => (self.r.h, self.r.l),
                    _ => (self.r.a, self.r.f),
                };
                self.r.sp = self.r.sp.wrapping_sub(1);
                self.mmu.write(self.r.sp, hi);
                self.r.sp = self.r.sp.wrapping_sub(1);
                self.mmu.write(self.r.sp, lo);
            }
            0xe0 => {
                let off = self.fetch();
                self.mmu.write(0xff00 | off as u16, self.r.a);
            }
            0xf0 => {
                let off = self.fetch();
                self.r.a = self.mmu.read(0xff00 | off as u16);
            }
            0xe2 => {
                let addr = 0xff00 | self.r.c as u16;
                self.mmu.write(addr, self.r.a)
            }
            0xf2 => {
                let addr = 0xff00 | self.r.c as u16;
                self.r.a = self.mmu.read(addr)
            }
            0xea => {
                let addr = self.fetch16();
                self.mmu.write(addr, self.r.a);
            }
            0xfa => {
                let addr = self.fetch16();
                self.r.a = self.mmu.read(addr);
            }
            0xe8 | 0xf8 => {
                let offset = self.fetch() as i8 as u16;
                let sp = self.r.sp;
                self.r.f = 0;
                self.set_flag(FLAG_H, (sp & 0xf) + (offset & 0xf) > 0xf);
                self.set_flag(FLAG_C, (sp & 0xff) + (offset & 0xff) > 0xff);
                let result = sp.wrapping_add(offset);
                if op == 0xe8 {
                    self.r.sp = result;
                } else {
                    self.set_hl(result);
                }
            }
            0xf9 => self.r.sp = self.hl(),
            0xcb => {
                let cb = self.fetch();
                let i = cb & 7;
                let bit = (cb >> 3) & 7;
                let v = self.get_r(i);
                match cb >> 6 {
                    0 => {
                        let (r, carry) = self.rotate(bit, v);
                        self.r.f = 0;
                        self.set_flag(FLAG_Z, r == 0);
                        self.set_flag(FLAG_C, carry);
                        self.set_r(i, r);
                    }
                    1 => {
                        self.set_flag(FLAG_Z, v & (1 << bit) == 0);
                        self.set_flag(FLAG_N, false);
                        self.set_flag(FLAG_H, true);
                    }
                    2 => self.set_r(i, v & !(1 << bit)),
                    _ => self.set_r(i, v | (1 << bit)),
                }
            }
            other => panic!("the oracle was handed opcode {other:#04x}"),
        }
    }
}

// ---- harness -------------------------------------------------------------

/// A tiny reproducible generator, so a failure can be replayed exactly.
struct Rng(u64);

impl Rng {
    fn next(&mut self) -> u64 {
        self.0 = self
            .0
            .wrapping_mul(6_364_136_223_846_793_005)
            .wrapping_add(1);
        self.0 >> 17
    }
    fn byte(&mut self) -> u8 {
        self.next() as u8
    }
}

/// Memory the comparison covers: work RAM plus high RAM.
const WATCHED: [(u16, u16); 2] = [(0xc000, 0xe000), (0xff80, 0xffff)];

/// Build the instruction bytes for `op`, choosing immediates that keep every
/// memory access inside RAM so the two runs see the same values.
fn encode(op: u8, cb: u8, rng: &mut Rng) -> Vec<u8> {
    let mut bytes = vec![op];
    match op {
        0xcb => bytes.push(cb),
        // 16-bit immediates that are used as addresses must land in work RAM.
        0x08 | 0xea | 0xfa => {
            let addr = 0xc200 + (rng.next() as u16 & 0x7f);
            bytes.extend_from_slice(&addr.to_le_bytes());
        }
        0x01 | 0x11 | 0x21 | 0x31 => {
            let value = 0xc300u16.wrapping_add(rng.next() as u16 & 0x7f);
            bytes.extend_from_slice(&value.to_le_bytes());
        }
        // The high-page forms must reach high RAM, not the hardware registers.
        0xe0 | 0xf0 => bytes.push(0x80 | (rng.byte() & 0x7e)),
        0x06 | 0x0e | 0x16 | 0x1e | 0x26 | 0x2e | 0x36 | 0x3e | 0xc6 | 0xce | 0xd6 | 0xde
        | 0xe6 | 0xee | 0xf6 | 0xfe | 0xe8 | 0xf8 => bytes.push(rng.byte()),
        _ => {}
    }
    bytes
}

/// Registers to start from. Pointer registers are aimed at work RAM.
fn seed_regs(rng: &mut Rng) -> Regs {
    Regs {
        a: rng.byte(),
        f: rng.byte() & 0xf0,
        b: rng.byte(),
        // C doubles as a high-page pointer, so keep it out of the registers.
        c: 0x80 | (rng.byte() & 0x7e),
        d: 0xc4,
        e: rng.byte(),
        h: 0xc5,
        l: rng.byte(),
        sp: 0xdf00 + (rng.next() as u16 & 0x7e),
    }
}

fn watched_memory(mmu: &Mmu) -> Vec<u8> {
    let mut out = Vec::new();
    for (start, end) in WATCHED {
        for addr in start..end {
            out.push(mmu.peek(addr));
        }
    }
    out
}

fn fill_ram(mmu: &mut Mmu, rng: &mut Rng) {
    for addr in 0xc000u16..0xc800 {
        mmu.write(addr, rng.byte());
    }
    for addr in 0xdf00u16..0xdfff {
        mmu.write(addr, rng.byte());
    }
    for addr in 0xff80u16..0xffff {
        mmu.write(addr, rng.byte());
    }
}

/// Opcodes the harness cannot compare one instruction at a time: control flow
/// changes where execution goes, and HALT/STOP/EI/DI act on machine state whose
/// timing the oracle does not model. All of those have their own tests.
fn is_comparable(op: u8) -> bool {
    !matches!(
        op,
        0x10 | 0x76
            | 0xf3
            | 0xfb
            | 0x18
            | 0x20
            | 0x28
            | 0x30
            | 0x38
            | 0xc0
            | 0xc2
            | 0xc3
            | 0xc4
            | 0xc7
            | 0xc8
            | 0xc9
            | 0xca
            | 0xcc
            | 0xcd
            | 0xcf
            | 0xd0
            | 0xd2
            | 0xd4
            | 0xd7
            | 0xd8
            | 0xd9
            | 0xda
            | 0xdc
            | 0xdf
            | 0xe7
            | 0xe9
            | 0xef
            | 0xf7
            | 0xff
            | 0xd3
            | 0xdb
            | 0xdd
            | 0xe3
            | 0xe4
            | 0xeb
            | 0xec
            | 0xed
            | 0xf4
            | 0xfc
            | 0xfd
    )
}

/// Run one instruction both ways and compare everything observable.
fn compare(op: u8, cb: u8, seed: u64) -> Result<(), String> {
    let mut rng = Rng(seed);
    let instruction = encode(op, cb, &mut rng);
    let regs = seed_regs(&mut rng);
    let ram_seed = rng.0;

    let mut program = instruction.clone();
    program.push(0x76); // HALT, so the block ends and the run stops

    let config = Config::default();
    let rom = cartridge(&program);

    // The translated run.
    let mut emu = start(rom.clone(), &config, 4 << 20);
    fill_ram(&mut emu.host.mmu, &mut Rng(ram_seed));
    emu.state.a = regs.a;
    emu.state.f = regs.f;
    emu.state.b = regs.b;
    emu.state.c = regs.c;
    emu.state.d = regs.d;
    emu.state.e = regs.e;
    emu.state.h = regs.h;
    emu.state.l = regs.l;
    emu.state.sp = regs.sp;
    emu.state.pc = 0x0150;
    for _ in 0..64 {
        if emu.state.halted != 0 {
            break;
        }
        step(&mut emu);
    }
    let translated = Regs {
        a: emu.state.a,
        f: emu.state.f,
        b: emu.state.b,
        c: emu.state.c,
        d: emu.state.d,
        e: emu.state.e,
        h: emu.state.h,
        l: emu.state.l,
        sp: emu.state.sp,
    };
    let translated_ram = watched_memory(&emu.host.mmu);

    // The reference run, over an identical machine.
    let mut oracle_emu = start(rom, &config, 1 << 20);
    fill_ram(&mut oracle_emu.host.mmu, &mut Rng(ram_seed));
    let mut reference = Reference {
        r: regs,
        pc: 0x0150,
        mmu: &mut oracle_emu.host.mmu,
    };
    reference.step();
    let expected = reference.r;
    let expected_ram = watched_memory(&oracle_emu.host.mmu);

    let name = if op == 0xcb {
        format!("CB {cb:02X}")
    } else {
        format!("{op:02X}")
    };

    if translated != expected {
        return Err(format!(
            "opcode {name} (seed {seed}) produced {translated:02x?}\n\
             but the reference produced          {expected:02x?}\n\
             starting from {regs:02x?}"
        ));
    }
    if translated_ram != expected_ram {
        let at = translated_ram
            .iter()
            .zip(&expected_ram)
            .position(|(a, b)| a != b)
            .unwrap();
        return Err(format!(
            "opcode {name} (seed {seed}) wrote {:#04x} where the reference wrote {:#04x} \
             (byte {at} of the watched memory)",
            translated_ram[at], expected_ram[at]
        ));
    }
    Ok(())
}

#[test]
fn every_plain_opcode_matches_the_reference() {
    let mut failures = Vec::new();
    for op in 0u16..=0xff {
        let op = op as u8;
        if op == 0xcb || !is_comparable(op) {
            continue;
        }
        for seed in 0..12u64 {
            if let Err(message) = compare(op, 0, seed * 7919 + op as u64) {
                failures.push(message);
                break; // one report per opcode is enough to act on
            }
        }
    }
    assert!(
        failures.is_empty(),
        "{} opcodes disagree:\n\n{}",
        failures.len(),
        failures.join("\n\n")
    );
}

#[test]
fn every_cb_prefixed_opcode_matches_the_reference() {
    let mut failures = Vec::new();
    for cb in 0u16..=0xff {
        for seed in 0..6u64 {
            if let Err(message) = compare(0xcb, cb as u8, seed * 104_729 + cb as u64) {
                failures.push(message);
                break;
            }
        }
    }
    assert!(
        failures.is_empty(),
        "{} CB opcodes disagree:\n\n{}",
        failures.len(),
        failures.join("\n\n")
    );
}
