//! The arithmetic of the processor, in numbers.
use vstd::prelude::*;
use crate::recomp::abi::GbState;
use crate::recomp::bus::{Event, Hardware, World};
use crate::recomp::decode;
use crate::recomp::manual;
use crate::recomp::sm83;

verus! {

/// The zero flag, the top bit of F, as a number.
#[verifier::opaque]
pub open spec fn z(st: GbState) -> int {
    st.f as int / 128
}

/// The subtract flag.
#[verifier::opaque]
pub open spec fn n(st: GbState) -> int {
    st.f as int / 64 % 2
}

/// The half carry flag.
#[verifier::opaque]
pub open spec fn h(st: GbState) -> int {
    st.f as int / 32 % 2
}

/// The carry flag.
#[verifier::opaque]
pub open spec fn c(st: GbState) -> int {
    st.f as int / 16 % 2
}

proof fn lemma_flags(st: GbState, zero: bool, sub: bool, half: bool, carry: bool)
    requires
        st.f == sm83::flags(zero, sub, half, carry),
    ensures
        z(st) == if zero { 1int } else { 0 },
        n(st) == if sub { 1int } else { 0 },
        h(st) == if half { 1int } else { 0 },
        c(st) == if carry { 1int } else { 0 },
        sm83::carry_flag(st.f) == carry,
        sm83::half_flag(st.f) == half,
        sm83::subtract_flag(st.f) == sub,
        sm83::zero_flag(st.f) == zero,
{
    reveal(z);
    reveal(n);
    reveal(h);
    reveal(c);
}

proof fn lemma_carry(st: GbState)
    ensures
        c(st) == sm83::bit_of(sm83::carry_flag(st.f)),
        z(st) == sm83::bit_of(sm83::zero_flag(st.f)),
        0 <= c(st) <= 1,
        0 <= z(st) <= 1,
{
    reveal(c);
    reveal(z);
}

/// The low half of a byte, whatever stands above it.
proof fn lemma_low_half(x: int, q: int, r: int)
    requires
        x == 16 * q + r,
        0 <= r < 16,
    ensures
        x % 16 == r,
        x % 256 % 16 == r,
{
    let t = x / 256;
    let low = x - 256 * t;
    assert(low == x % 256);
    vstd::arithmetic::div_mod::lemma_fundamental_div_mod_converse(x, 16, q, r);
    vstd::arithmetic::div_mod::lemma_fundamental_div_mod_converse(low, 16, q - 16 * t, r);
}

proof fn lemma_whole(x: int)
    requires
        -512 < x < 512,
    ensures
        x < -256 ==> x % 256 == x + 512,
        -256 <= x < 0 ==> x % 256 == x + 256,
        0 <= x <= 255 ==> x % 256 == x,
        x > 255 ==> x % 256 == x - 256,
{
}

proof fn lemma_half_sum(a: int, v: int, k: int)
    requires
        0 <= a < 256,
        0 <= v < 256,
        0 <= k <= 1,
    ensures
        a % 16 + v % 16 + k > 15 ==> (a + v + k) % 256 % 16 == a % 16 + v % 16 + k - 16,
        a % 16 + v % 16 + k <= 15 ==> (a + v + k) % 256 % 16 == a % 16 + v % 16 + k,
{
    let (p, q) = (a / 16, v / 16);
    let (r, s) = (a % 16, v % 16);
    let low = r + s + k;
    assert(a == 16 * p + r && v == 16 * q + s);
    if low > 15 {
        lemma_low_half(a + v + k, p + q + 1, low - 16);
    } else {
        lemma_low_half(a + v + k, p + q, low);
    }
}

proof fn lemma_half_difference(a: int, v: int, k: int)
    requires
        0 <= a < 256,
        0 <= v < 256,
        0 <= k <= 1,
    ensures
        a % 16 < v % 16 + k ==> (a - v - k) % 256 % 16 == a % 16 - v % 16 - k + 16,
        a % 16 >= v % 16 + k ==> (a - v - k) % 256 % 16 == a % 16 - v % 16 - k,
{
    let (p, q) = (a / 16, v / 16);
    let (r, s) = (a % 16, v % 16);
    let low = r - s - k;
    assert(a == 16 * p + r && v == 16 * q + s);
    if low < 0 {
        lemma_low_half(a - v - k, p - q - 1, low + 16);
    } else {
        lemma_low_half(a - v - k, p - q, low);
    }
}

/// Adding: the carry is what does not fit the byte, the half carry what does not fit its low
/// half, and the zero flag tells of a result of 0.
#[verifier::rlimit(40)]
pub proof fn law_sum(st: GbState, v: u8)
    ensures
        ({
            let plain = sm83::alu(st, 0, v);
            &&& plain.a + 256 * c(plain) == st.a + v
            &&& plain.a % 16 + 16 * h(plain) == st.a % 16 + v % 16
            &&& z(plain) == 1 <==> plain.a == 0
            &&& n(plain) == 0
        }),
        ({
            let with = sm83::alu(st, 1, v);
            &&& with.a + 256 * c(with) == st.a + v + c(st)
            &&& with.a % 16 + 16 * h(with) == st.a % 16 + v % 16 + c(st)
            &&& z(with) == 1 <==> with.a == 0
            &&& n(with) == 0
        }),
{
    lemma_carry(st);
    let k = c(st);
    lemma_whole(st.a + v);
    lemma_whole(st.a + v + k);
    lemma_half_sum(st.a as int, v as int, 0);
    lemma_half_sum(st.a as int, v as int, k);
    lemma_flags(
        sm83::alu(st, 0, v),
        (st.a + v) % 256 == 0,
        false,
        st.a % 16 + v % 16 > 15,
        st.a + v > 255,
    );
    lemma_flags(
        sm83::alu(st, 1, v),
        (st.a + v + k) % 256 == 0,
        false,
        st.a % 16 + v % 16 + k > 15,
        st.a + v + k > 255,
    );
}

/// Subtracting: the carry is what has to be borrowed from above the byte, the half carry
/// what the low half has to borrow. Comparing leaves the same flags and A as it was.
#[verifier::rlimit(40)]
pub proof fn law_difference(st: GbState, v: u8)
    ensures
        ({
            let plain = sm83::alu(st, 2, v);
            &&& plain.a == st.a - v + 256 * c(plain)
            &&& plain.a % 16 == st.a % 16 - v % 16 + 16 * h(plain)
            &&& z(plain) == 1 <==> st.a == v
            &&& n(plain) == 1
            &&& sm83::alu(st, 7, v) == (GbState { f: plain.f, ..st })
        }),
        ({
            let with = sm83::alu(st, 3, v);
            &&& with.a == st.a - v - c(st) + 256 * c(with)
            &&& with.a % 16 == st.a % 16 - v % 16 - c(st) + 16 * h(with)
            &&& z(with) == 1 <==> with.a == 0
            &&& n(with) == 1
        }),
{
    lemma_carry(st);
    let k = c(st);
    lemma_whole(st.a - v);
    lemma_whole(st.a - v - k);
    lemma_half_difference(st.a as int, v as int, 0);
    lemma_half_difference(st.a as int, v as int, k);
    lemma_flags(
        sm83::alu(st, 2, v),
        (st.a - v) % 256 == 0,
        true,
        st.a % 16 < v % 16,
        st.a < v,
    );
    lemma_flags(
        sm83::alu(st, 3, v),
        (st.a - v - k) % 256 == 0,
        true,
        st.a % 16 < v % 16 + k,
        st.a < v + k,
    );
}

/// The logic operations and the flags they leave.
pub proof fn law_logic(st: GbState, v: u8)
    ensures
        sm83::alu(st, 4, v).a == st.a & v,
        sm83::alu(st, 5, v).a == st.a ^ v,
        sm83::alu(st, 6, v).a == st.a | v,
        sm83::alu(st, 4, v).f == (if st.a & v == 0 { 0xa0u8 } else { 0x20u8 }),
        sm83::alu(st, 5, v).f == (if st.a ^ v == 0 { 0x80u8 } else { 0x00u8 }),
        sm83::alu(st, 6, v).f == (if st.a | v == 0 { 0x80u8 } else { 0x00u8 }),
{
}

/// Which instruction does which: C6, CE, D6, DE, E6, EE, F6 and FE with the byte behind them
/// add, add with carry, subtract, subtract with carry, and, exclusive or, or and compare,
/// in eight cycles; 80 to BF do the same with a register, B, C, D, E, H, L or A, in four.
#[verifier::rlimit(40)]
pub proof fn law_operand(hw: Hardware, mem: spec_fn(u16) -> u8, addr: u16, w: World)
    requires
        w.st.pending == 0,
    ensures
        ({
            let op = mem(addr);
            let kind = op as int / 8 % 8;
            let v = mem(((addr + 1) % 0x1_0000) as u16);
            let out = sm83::normal(hw, w, decode::insn_at(mem, addr));
            let r = op % 8;
            let held = if r == 0 {
                w.st.b
            } else if r == 1 {
                w.st.c
            } else if r == 2 {
                w.st.d
            } else if r == 3 {
                w.st.e
            } else if r == 4 {
                w.st.h
            } else if r == 5 {
                w.st.l
            } else {
                w.st.a
            };
            let there = w.log.push(Event::Tick(8));
            let at = (256 * w.st.h + w.st.l) as u16;
            &&& op >= 0xc0 && r == 6 ==> out == w.with(
                GbState { pending: 8, ..sm83::alu(w.st, kind, v) },
            )
            &&& 0x80 <= op < 0xc0 && r != 6 ==> out == w.with(
                GbState { pending: 4, ..sm83::alu(w.st, kind, held) },
            )
            &&& 0x80 <= op < 0xc0 && r == 6 ==> out.st == sm83::alu(
                w.st,
                kind,
                (hw.byte)(there, at),
            ) && out.log == there.push(Event::Read(at))
        }),
{
    manual::law_length(mem(addr));
}

/// A row of two decimal digits, four bits each.
pub open spec fn decimal_pair(tens: int, ones: int) -> int {
    16 * tens + ones
}

/// Decimal arithmetic: after two pairs of decimal digits are added and adjusted, A holds the
/// digits of their sum and the carry tells of a hundred; after one is subtracted from the
/// other and adjusted, those of their difference, a hundred having been borrowed if the carry
/// is set.
pub proof fn law_decimal_adjust(st: GbState, x: int, y: int, u: int, v: int)
    requires
        0 <= x < 10,
        0 <= y < 10,
        0 <= u < 10,
        0 <= v < 10,
        st.a == decimal_pair(x, y),
    ensures
        ({
            let added = sm83::daa(sm83::alu(st, 0, decimal_pair(u, v) as u8));
            let sum = 10 * x + y + 10 * u + v;
            &&& added.a == decimal_pair(sum % 100 / 10, sum % 10)
            &&& c(added) == sum / 100
            &&& z(added) == 1 <==> sum % 100 == 0
            &&& h(added) == 0
        }),
        ({
            let taken = sm83::daa(sm83::alu(st, 2, decimal_pair(u, v) as u8));
            let rest = 10 * x + y - (10 * u + v);
            &&& taken.a == decimal_pair(rest % 100 / 10, rest % 10)
            &&& c(taken) == 1 <==> rest < 0
            &&& z(taken) == 1 <==> rest == 0
            &&& h(taken) == 0
        }),
{
    lemma_adjust_sum(st, x, y, u, v);
    lemma_adjust_difference(st, x, y, u, v);
}

/// The digits of a number below 200.
proof fn lemma_digits(sum: int, t: int, ones: int)
    requires
        sum == 10 * t + ones,
        0 <= ones < 10,
        0 <= t < 20,
    ensures
        sum % 10 == ones,
        sum / 100 == if t >= 10 {
            1int
        } else {
            0
        },
        sum % 100 / 10 == if t >= 10 {
            t - 10
        } else {
            t
        },
        sum % 100 == 0 <==> ones == 0 && (t == 0 || t == 10),
{
}

/// The digits of a number from -99 to 99, counted modulo a hundred.
proof fn lemma_digits_below(rest: int, t: int, ones: int)
    requires
        rest == 10 * t + ones,
        0 <= ones < 10,
        -10 <= t < 10,
    ensures
        rest % 10 == ones,
        rest < 0 <==> t < 0,
        rest % 100 / 10 == if t < 0 {
            t + 10
        } else {
            t
        },
{
}

#[verifier::rlimit(40)]
proof fn lemma_adjust_sum(st: GbState, x: int, y: int, u: int, v: int)
    requires
        0 <= x < 10,
        0 <= y < 10,
        0 <= u < 10,
        0 <= v < 10,
        st.a == decimal_pair(x, y),
    ensures
        ({
            let added = sm83::daa(sm83::alu(st, 0, decimal_pair(u, v) as u8));
            let sum = 10 * x + y + 10 * u + v;
            &&& added.a == decimal_pair(sum % 100 / 10, sum % 10)
            &&& c(added) == sum / 100
            &&& z(added) == 1 <==> sum % 100 == 0
            &&& h(added) == 0
        }),
{
    let w = decimal_pair(u, v) as u8;
    let mid = sm83::alu(st, 0, w);
    let raw = 16 * (x + u) + y + v;
    lemma_low_half(st.a as int, x, y);
    lemma_low_half(w as int, u, v);
    lemma_flags(mid, raw % 256 == 0, false, y + v > 15, raw > 255);
    let low: int = if y + v >= 10 {
        1
    } else {
        0
    };
    let ones = y + v - 10 * low;
    let t = x + u + low;
    let high: int = if t >= 10 {
        1
    } else {
        0
    };
    lemma_raw_sum(x, y, u, v);
    assert(sm83::daa_low(mid) == (low == 1));
    assert(sm83::daa_high(mid) == (high == 1));
    let adjusted = sm83::daa(mid);
    assert(adjusted.a == (raw % 256 + 96 * high + 6 * low) % 256);
    lemma_adjusted(raw, 96 * high + 6 * low, 16 * (t - 10 * high) + ones, high);
    lemma_flags(adjusted, adjusted.a == 0, false, false, high == 1);
    lemma_digits(10 * x + y + 10 * u + v, t, ones);
}

proof fn lemma_adjusted(raw: int, by: int, out: int, high: int)
    requires
        raw + by == out + 256 * high,
        0 <= out < 256,
    ensures
        (raw % 256 + by) % 256 == out,
{
    let k = raw / 256;
    assert(raw % 256 + by == out + 256 * (high - k));
}

/// What the bare sum of two pairs of digits tells of its digits.
proof fn lemma_raw_sum(x: int, y: int, u: int, v: int)
    requires
        0 <= x < 10,
        0 <= y < 10,
        0 <= u < 10,
        0 <= v < 10,
    ensures
        ({
            let raw = 16 * (x + u) + y + v;
            let low: int = if y + v >= 10 {
                1
            } else {
                0
            };
            &&& y + v > 15 || raw % 256 % 16 > 9 <==> low == 1
            &&& raw > 255 || raw % 256 > 0x99 <==> x + u + low >= 10
        }),
{
    let raw = 16 * (x + u) + y + v;
    if y + v > 15 {
        lemma_low_half(raw, x + u + 1, y + v - 16);
    } else {
        lemma_low_half(raw, x + u, y + v);
    }
}

#[verifier::rlimit(40)]
proof fn lemma_adjust_difference(st: GbState, x: int, y: int, u: int, v: int)
    requires
        0 <= x < 10,
        0 <= y < 10,
        0 <= u < 10,
        0 <= v < 10,
        st.a == decimal_pair(x, y),
    ensures
        ({
            let taken = sm83::daa(sm83::alu(st, 2, decimal_pair(u, v) as u8));
            let rest = 10 * x + y - (10 * u + v);
            &&& taken.a == decimal_pair(rest % 100 / 10, rest % 10)
            &&& c(taken) == 1 <==> rest < 0
            &&& z(taken) == 1 <==> rest == 0
            &&& h(taken) == 0
        }),
{
    let w = decimal_pair(u, v) as u8;
    let mid = sm83::alu(st, 2, w);
    lemma_low_half(st.a as int, x, y);
    lemma_low_half(w as int, u, v);
    let raw = 16 * (x - u) + y - v;
    lemma_flags(mid, raw % 256 == 0, true, y < v, raw < 0);
    let low: int = if y < v {
        1
    } else {
        0
    };
    let ones = y - v + 10 * low;
    let t = x - u - low;
    let high: int = if raw < 0 {
        1
    } else {
        0
    };
    assert((high == 1) == (t < 0));
    let adjusted = sm83::daa(mid);
    assert(adjusted.a == (raw % 256 - (96 * high + 6 * low)) % 256);
    lemma_adjusted(raw, -(96 * high + 6 * low), 16 * (t + 10 * high) + ones, -high);
    lemma_flags(adjusted, adjusted.a == 0, true, false, high == 1);
    lemma_digits_below(10 * x + y - (10 * u + v), t, ones);
}

/// The rotations and shifts, by their number in the second byte: the bit that leaves is the
/// carry, and what comes in is that bit, the carry before, the sign, or nothing.
#[verifier::rlimit(40)]
pub proof fn law_rotations(v: u8, carry: bool)
    ensures
        ({
            let k: int = if carry {
                1
            } else {
                0
            };
            let out = |kind: int| sm83::rotated(kind, v, carry) as int;
            let left = |kind: int| if sm83::carried(kind, v) { 1int } else { 0int };
            &&& out(0) + 256 * left(0) == 2 * v + left(0)
            &&& 2 * out(1) + left(1) == v + 256 * left(1)
            &&& out(2) + 256 * left(2) == 2 * v + k
            &&& 2 * out(3) + left(3) == v + 256 * k
            &&& out(4) + 256 * left(4) == 2 * v
            &&& 2 * out(5) + left(5) == v + 256 * (v as int / 128)
            &&& out(6) == v as int % 16 * 16 + v as int / 16
            &&& left(6) == 0
            &&& 2 * out(7) + left(7) == v
        }),
{
}

/// Counting a register up or down by one: around at the ends, with the carry left alone.
pub proof fn law_counting(hw: Hardware, w: World, i: int, down: bool)
    requires
        0 <= i < 8,
        i != 6,
    ensures
        ({
            let v = sm83::reg8(w.st, i);
            let out = sm83::inc_dec(hw, w, i, down);
            let r = sm83::reg8(out.st, i);
            &&& !down ==> r == (v + 1) % 256
            &&& down ==> r == (v - 1) % 256
            &&& z(out.st) == 1 <==> r == 0
            &&& n(out.st) == 1 <==> down
            &&& h(out.st) == 1 <==> (if down {
                v % 16 == 0
            } else {
                v % 16 == 15
            })
            &&& c(out.st) == c(w.st)
        }),
{
    let v = sm83::reg8(w.st, i);
    let r = (if down {
        (v - 1) % 256
    } else {
        (v + 1) % 256
    }) as u8;
    lemma_carry(w.st);
    lemma_flags(
        sm83::inc_dec(hw, w, i, down).st,
        r == 0,
        down,
        if down {
            v % 16 == 0
        } else {
            v % 16 == 15
        },
        sm83::carry_flag(w.st.f),
    );
}

/// Adding to HL: modulo 65536, the carry from bit 15 and the half carry from bit 11; the
/// zero flag stays.
#[verifier::rlimit(40)]
pub proof fn law_wide_sum(st: GbState, v: u16)
    ensures
        ({
            let out = sm83::add_hl(st, v);
            let before = 256 * st.h + st.l;
            let after = 256 * out.h + out.l;
            &&& after + 0x1_0000 * c(out) == before + v
            &&& after % 4096 + 4096 * h(out) == before % 4096 + v % 4096
            &&& n(out) == 0
            &&& z(out) == z(st)
        }),
{
    let x = 256 * st.h + st.l;
    lemma_carry(st);
    lemma_flags(
        sm83::add_hl(st, v),
        sm83::zero_flag(st.f),
        false,
        x % 4096 + v % 4096 > 4095,
        x + v > 65535,
    );
    lemma_wide(x, v as int);
}

proof fn lemma_wide(x: int, v: int)
    requires
        0 <= x < 0x1_0000,
        0 <= v < 0x1_0000,
    ensures
        x + v > 65535 ==> (x + v) % 0x1_0000 == x + v - 0x1_0000,
        x + v <= 65535 ==> (x + v) % 0x1_0000 == x + v,
        x % 4096 + v % 4096 > 4095 ==> (x + v) % 0x1_0000 % 4096 == x % 4096 + v % 4096 - 4096,
        x % 4096 + v % 4096 <= 4095 ==> (x + v) % 0x1_0000 % 4096 == x % 4096 + v % 4096,
{
}

/// Adding a signed byte to SP: the flags are those of adding the byte to SP's low one, and
/// neither zero nor subtract is set.
pub proof fn law_stack_offset(st: GbState, b: u8)
    ensures
        sm83::sp_plus(st, b) == (st.sp + (if b < 128 {
            b as int
        } else {
            b - 256
        })) % 0x1_0000,
        ({
            let out = GbState { f: sm83::sp_plus_flags(st, b), ..st };
            &&& c(out) == 1 <==> st.sp as int % 256 + b >= 256
            &&& h(out) == 1 <==> st.sp as int % 16 + b as int % 16 >= 16
            &&& z(out) == 0
            &&& n(out) == 0
        }),
{
    lemma_flags(
        GbState { f: sm83::sp_plus_flags(st, b), ..st },
        false,
        false,
        st.sp % 16 + b % 16 > 15,
        st.sp % 256 + b > 255,
    );
}

/// The rotations and shifts of a register, CB 00 to CB 3F: the bits move by one place, the one
/// that leaves is the carry, and what comes in is told by the second byte's upper part.
#[verifier::rlimit(40)]
pub proof fn law_shift(hw: Hardware, w: World, cb: u8)
    requires
        cb < 0x40,
        cb % 8 != 6,
    ensures
        ({
            let v = manual::register(w.st, cb as int % 8) as int;
            let out = sm83::prefixed(hw, w, cb);
            let r = manual::register(out.st, cb as int % 8) as int;
            let k = c(out.st);
            &&& cb / 8 == 0 ==> r + 256 * k == 2 * v + k
            &&& cb / 8 == 1 ==> 2 * r + k == v + 256 * k
            &&& cb / 8 == 2 ==> r + 256 * k == 2 * v + c(w.st)
            &&& cb / 8 == 3 ==> 2 * r + k == v + 256 * c(w.st)
            &&& cb / 8 == 4 ==> r + 256 * k == 2 * v
            &&& cb / 8 == 5 ==> 2 * r + k == v + 256 * (v / 128)
            &&& cb / 8 == 6 ==> r == v % 16 * 16 + v / 16 && k == 0
            &&& cb / 8 == 7 ==> 2 * r + k == v
            &&& z(out.st) == 1 <==> r == 0
            &&& n(out.st) == 0
            &&& h(out.st) == 0
            &&& out.log == w.log
        }),
{
    let v = manual::register(w.st, cb as int % 8);
    let kind = cb as int / 8;
    let carry = sm83::carry_flag(w.st.f);
    let r = sm83::rotated(kind, v, carry);
    lemma_carry(w.st);
    lemma_turned(kind, v, carry);
    lemma_flags(
        sm83::prefixed(hw, w, cb).st,
        r == 0,
        false,
        false,
        sm83::carried(kind, v),
    );
}

proof fn lemma_turned(kind: int, v: u8, carry: bool)
    requires
        0 <= kind < 8,
    ensures
        ({
            let r = sm83::rotated(kind, v, carry) as int;
            let k = sm83::bit_of(sm83::carried(kind, v));
            &&& kind == 0 ==> r + 256 * k == 2 * v + k
            &&& kind == 1 ==> 2 * r + k == v + 256 * k
            &&& kind == 2 ==> r + 256 * k == 2 * v + sm83::bit_of(carry)
            &&& kind == 3 ==> 2 * r + k == v + 256 * sm83::bit_of(carry)
            &&& kind == 4 ==> r + 256 * k == 2 * v
            &&& kind == 5 ==> 2 * r + k == v + 256 * (v as int / 128)
            &&& kind == 6 ==> r == v as int % 16 * 16 + v as int / 16 && k == 0
            &&& kind == 7 ==> 2 * r + k == v
        }),
{
    law_rotations(v, carry);
}

proof fn lemma_one_bit(v: u8, bit: u8, j: u8)
    by (bit_vector)
    requires
        bit < 8,
        j < 8,
    ensures
        v & (1u8 << bit) == 0 <==> (v >> bit) & 1 == 0,
        (v & !(1u8 << bit)) >> j & 1 == (if j == bit {
            0u8
        } else {
            (v >> j) & 1
        }),
        (v | (1u8 << bit)) >> j & 1 == (if j == bit {
            1u8
        } else {
            (v >> j) & 1
        }),
{
}

/// The single bits of a register: CB 40 to CB 7F tell in the zero flag whether one is clear,
/// CB 80 to CB BF clear it and CB C0 to CB FF set it, and every other bit stays. The bit's
/// number stands in bits 3 to 5 of the second byte and the register's in bits 0 to 2.
#[verifier::rlimit(40)]
pub proof fn law_single_bit(hw: Hardware, w: World, cb: u8, j: u8)
    requires
        cb >= 0x40,
        cb % 8 != 6,
        j < 8,
    ensures
        ({
            let v = manual::register(w.st, cb as int % 8);
            let bit = (cb / 8 % 8) as u8;
            let out = sm83::prefixed(hw, w, cb);
            let r = manual::register(out.st, cb as int % 8);
            &&& cb < 0x80 ==> {
                &&& z(out.st) == 1 <==> (v >> bit) & 1 == 0
                &&& n(out.st) == 0
                &&& h(out.st) == 1
                &&& c(out.st) == c(w.st)
                &&& r == v
            }
            &&& 0x80 <= cb < 0xc0 ==> (r >> j) & 1 == (if j == bit {
                0u8
            } else {
                (v >> j) & 1
            }) && out.st.f == w.st.f
            &&& cb >= 0xc0 ==> (r >> j) & 1 == (if j == bit {
                1u8
            } else {
                (v >> j) & 1
            }) && out.st.f == w.st.f
        }),
{
    let v = manual::register(w.st, cb as int % 8);
    let bit = (cb / 8 % 8) as u8;
    lemma_one_bit(v, bit, j);
    lemma_carry(w.st);
    if cb < 0x80 {
        lemma_flags(
            sm83::prefixed(hw, w, cb).st,
            v & (1u8 << bit) == 0,
            false,
            true,
            sm83::carry_flag(w.st.f),
        );
    }
}

/// A register pair by the number that instructions give it: BC, DE, HL and SP.
pub open spec fn pair_of(st: GbState, i: int) -> int {
    if i == 0 {
        256 * st.b + st.c
    } else if i == 1 {
        256 * st.d + st.e
    } else if i == 2 {
        256 * st.h + st.l
    } else {
        st.sp as int
    }
}

/// The pairs: 01, 11, 21 and 31 set one to the word behind them, 03 to 33 count one up and 0B
/// to 3B down, around at the ends and without touching the flags, and 09 to 39 add one to
/// HL.
#[verifier::rlimit(40)]
pub proof fn law_pairs(hw: Hardware, mem: spec_fn(u16) -> u8, addr: u16, w: World, i: int)
    requires
        w.st.pending == 0,
        mem(addr) < 0x40,
        0 <= i < 4,
    ensures
        ({
            let op = mem(addr);
            let row = op as int / 16;
            let out = sm83::normal(hw, w, decode::insn_at(mem, addr));
            &&& op % 16 == 1 ==> pair_of(out.st, i) == (if i == row {
                manual::word_behind(mem, addr)
            } else {
                pair_of(w.st, i)
            }) && out.st.f == w.st.f && out.st.pending == 12
            &&& op % 16 == 3 ==> pair_of(out.st, i) == (if i == row {
                (pair_of(w.st, i) + 1) % 0x1_0000
            } else {
                pair_of(w.st, i)
            }) && out.st.f == w.st.f && out.st.pending == 8
            &&& op % 16 == 11 ==> pair_of(out.st, i) == (if i == row {
                (pair_of(w.st, i) - 1) % 0x1_0000
            } else {
                pair_of(w.st, i)
            }) && out.st.f == w.st.f && out.st.pending == 8
            &&& op % 16 == 9 ==> pair_of(out.st, 2) == (pair_of(w.st, 2) + pair_of(w.st, row))
                % 0x1_0000 && out.st.pending == 8
        }),
{
    manual::law_length(mem(addr));
}

/// The operations on A alone: 07, 0F, 17 and 1F rotate it as CB 07 to CB 1F do, but never set
/// the zero flag; 2F turns every bit over; 37 sets the carry and 3F turns it over.
#[verifier::rlimit(40)]
pub proof fn law_accumulator(st: GbState)
    ensures
        sm83::accumulator(st, 0x07).a == sm83::rotated(0, st.a, sm83::carry_flag(st.f)),
        sm83::accumulator(st, 0x0f).a == sm83::rotated(1, st.a, sm83::carry_flag(st.f)),
        sm83::accumulator(st, 0x17).a == sm83::rotated(2, st.a, sm83::carry_flag(st.f)),
        sm83::accumulator(st, 0x1f).a == sm83::rotated(3, st.a, sm83::carry_flag(st.f)),
        z(sm83::accumulator(st, 0x07)) == 0,
        z(sm83::accumulator(st, 0x17)) == 0,
        c(sm83::accumulator(st, 0x07)) == 1 <==> st.a >= 128,
        c(sm83::accumulator(st, 0x0f)) == 1 <==> st.a % 2 == 1,
        c(sm83::accumulator(st, 0x17)) == 1 <==> st.a >= 128,
        c(sm83::accumulator(st, 0x1f)) == 1 <==> st.a % 2 == 1,
        sm83::accumulator(st, 0x2f).a + st.a == 255,
        c(sm83::accumulator(st, 0x2f)) == c(st),
        z(sm83::accumulator(st, 0x2f)) == z(st),
        c(sm83::accumulator(st, 0x37)) == 1,
        c(sm83::accumulator(st, 0x3f)) == 1 - c(st),
        z(sm83::accumulator(st, 0x37)) == z(st),
        z(sm83::accumulator(st, 0x3f)) == z(st),
        sm83::accumulator(st, 0x37).a == st.a,
        sm83::accumulator(st, 0x3f).a == st.a,
{
    lemma_carry(st);
    let zero = sm83::zero_flag(st.f);
    let carry = sm83::carry_flag(st.f);
    lemma_flags(sm83::accumulator(st, 0x07), false, false, false, st.a >= 128);
    lemma_flags(sm83::accumulator(st, 0x0f), false, false, false, st.a % 2 == 1);
    lemma_flags(sm83::accumulator(st, 0x17), false, false, false, st.a >= 128);
    lemma_flags(sm83::accumulator(st, 0x1f), false, false, false, st.a % 2 == 1);
    lemma_flags(sm83::accumulator(st, 0x2f), zero, true, true, carry);
    lemma_flags(sm83::accumulator(st, 0x37), zero, false, false, true);
    lemma_flags(sm83::accumulator(st, 0x3f), zero, false, false, !carry);
}

/// Which of these an instruction is: those below 40 that end in 7 or F act on A, CB does what
/// the byte behind it says, those that end in 4 or C count a register up and in 5 or D down.
#[verifier::rlimit(40)]
pub proof fn law_dispatch(hw: Hardware, mem: spec_fn(u16) -> u8, addr: u16, w: World)
    requires
        w.st.pending == 0,
    ensures
        ({
            let op = mem(addr);
            let out = sm83::normal(hw, w, decode::insn_at(mem, addr));
            let v = mem(((addr + 1) % 0x1_0000) as u16);
            let four = w.with(GbState { pending: 4, ..w.st });
            &&& op < 0x40 && op % 8 == 7 ==> out == w.with(
                GbState { pending: 4, ..sm83::accumulator(w.st, op) },
            )
            &&& op == 0xcb ==> out == sm83::prefixed(
                hw,
                w.with(GbState { pending: 8, ..w.st }),
                v,
            )
            &&& op < 0x40 && op % 8 == 4 ==> out == sm83::inc_dec(hw, four, op as int / 8, false)
            &&& op < 0x40 && op % 8 == 5 ==> out == sm83::inc_dec(hw, four, op as int / 8, true)
        }),
{
    manual::law_length(mem(addr));
}

/// Counting the byte that HL points at: it is read, and written back a machine cycle later.
pub proof fn law_counting_in_memory(hw: Hardware, w: World, down: bool)
    requires
        w.st.pending < 1000,
    ensures
        ({
            let at = (256 * w.st.h + w.st.l) as u16;
            let told = w.log.push(Event::Tick((w.st.pending + 4) as u32));
            let v = (hw.byte)(told, at);
            let r = if down {
                (v - 1) % 256
            } else {
                (v + 1) % 256
            };
            let out = sm83::inc_dec(hw, w, 6, down);
            &&& out.log == told.push(Event::Read(at)).push(Event::Tick(4)).push(
                Event::Write(at, r as u8),
            )
            &&& z(out.st) == 1 <==> r == 0
            &&& c(out.st) == c(w.st)
        }),
{
    let at = (256 * w.st.h + w.st.l) as u16;
    let told = w.log.push(Event::Tick((w.st.pending + 4) as u32));
    let v = (hw.byte)(told, at);
    let r = (if down {
        (v - 1) % 256
    } else {
        (v + 1) % 256
    }) as u8;
    lemma_carry(w.st);
    lemma_flags(
        sm83::inc_dec(hw, w, 6, down).st,
        r == 0,
        down,
        if down {
            v % 16 == 0
        } else {
            v % 16 == 15
        },
        sm83::carry_flag(w.st.f),
    );
}

/// The prefixed operations on the byte that HL points at: it is read, and but for the tests
/// written back a machine cycle later, turned, with the bit cleared, or with it set.
pub proof fn law_prefixed_in_memory(hw: Hardware, w: World, cb: u8)
    requires
        w.st.pending < 1000,
        cb % 8 == 6,
    ensures
        ({
            let at = (256 * w.st.h + w.st.l) as u16;
            let told = w.log.push(Event::Tick((w.st.pending + 4) as u32));
            let read = told.push(Event::Read(at));
            let v = (hw.byte)(told, at);
            let bit = (cb / 8 % 8) as u8;
            let out = sm83::prefixed(hw, w, cb);
            let r = if cb < 0x40 {
                sm83::rotated(cb as int / 8, v, sm83::carry_flag(w.st.f))
            } else if cb < 0xc0 {
                v & !(1u8 << bit)
            } else {
                v | (1u8 << bit)
            };
            &&& 0x40 <= cb < 0x80 ==> out.log == read && (z(out.st) == 1 <==> (v >> bit) & 1 == 0)
            &&& !(0x40 <= cb < 0x80) ==> out.log == read.push(Event::Tick(4)).push(
                Event::Write(at, r),
            )
        }),
{
    let at = (256 * w.st.h + w.st.l) as u16;
    let told = w.log.push(Event::Tick((w.st.pending + 4) as u32));
    let v = (hw.byte)(told, at);
    let bit = (cb / 8 % 8) as u8;
    lemma_one_bit(v, bit, 0);
    if 0x40 <= cb < 0x80 {
        lemma_flags(
            sm83::prefixed(hw, w, cb).st,
            v & (1u8 << bit) == 0,
            false,
            true,
            sm83::carry_flag(w.st.f),
        );
    }
}

/// The loads between a register and the byte that HL points at: 46 to 7E with the register's
/// number in bits 3 to 5 read it, 70 to 77 with the number in bits 0 to 2 write it, and 36
/// writes the byte behind it.
pub proof fn law_load_through_hl(hw: Hardware, mem: spec_fn(u16) -> u8, addr: u16, w: World)
    requires
        w.st.pending == 0,
    ensures
        ({
            let op = mem(addr);
            let at = (256 * w.st.h + w.st.l) as u16;
            let out = sm83::normal(hw, w, decode::insn_at(mem, addr));
            let told = w.log.push(Event::Tick(8));
            let v = mem(((addr + 1) % 0x1_0000) as u16);
            &&& 0x40 <= op < 0x80 && op % 8 == 6 && op != 0x76 ==> {
                &&& manual::register(out.st, op as int / 8 % 8) == (hw.byte)(told, at)
                &&& out.log == told.push(Event::Read(at))
            }
            &&& 0x70 <= op < 0x78 && op != 0x76 ==> out.log == told.push(
                Event::Write(at, manual::register(w.st, op as int % 8)),
            )
            &&& op == 0x36 ==> out.log == w.log.push(Event::Tick(12)).push(Event::Write(at, v))
        }),
{
    manual::law_length(mem(addr));
}

/// The stack pointer: 08 writes it at the word behind the instruction, the low byte first; E8
/// moves it by a signed byte in sixteen cycles, F8 sets HL to where that would be in twelve,
/// and F9 sets it to HL in eight.
pub proof fn law_stack_pointer(hw: Hardware, mem: spec_fn(u16) -> u8, addr: u16, w: World)
    requires
        w.st.pending == 0,
    ensures
        ({
            let op = mem(addr);
            let out = sm83::normal(hw, w, decode::insn_at(mem, addr));
            let to = manual::word_behind(mem, addr);
            let b = mem(((addr + 1) % 0x1_0000) as u16);
            let moved = (w.st.sp + (if b < 128 {
                b as int
            } else {
                b - 256
            })) % 0x1_0000;
            &&& op == 0x08 ==> out.log == w.log.push(Event::Tick(16)).push(
                Event::Write(to as u16, (w.st.sp % 256) as u8),
            ).push(Event::Tick(4)).push(
                Event::Write(((to + 1) % 0x1_0000) as u16, (w.st.sp / 256) as u8),
            )
            &&& op == 0xe8 ==> out.st.sp == moved && out.st.pending == 16 && out.log == w.log
            &&& op == 0xf8 ==> 256 * out.st.h + out.st.l == moved && out.st.sp == w.st.sp
                && out.st.pending == 12 && out.log == w.log
            &&& op == 0xf9 ==> out.st.sp == 256 * w.st.h + w.st.l && out.st.pending == 8
                && out.log == w.log
        }),
{
    manual::law_length(mem(addr));
}

/// Interrupts: F3 shuts them out at once and forgets a request to let them in; FB lets them
/// in one instruction later.
pub proof fn law_interrupt_switch(hw: Hardware, mem: spec_fn(u16) -> u8, addr: u16, w: World)
    ensures
        mem(addr) == 0xf3 ==> ({
            let out = sm83::normal(hw, w, decode::insn_at(mem, addr));
            out.st.ime == 0 && out.st.ime_delay == 0
        }),
        mem(addr) == 0xfb ==> ({
            let out = sm83::normal(hw, w, decode::insn_at(mem, addr));
            out.st.ime == w.st.ime && out.st.ime_delay == 1
        }),
{
}

} // verus!
