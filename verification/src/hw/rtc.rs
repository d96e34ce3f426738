//! MBC3's real-time clock. Time is derived from the host clock, so the counter keeps
//! advancing while the game is closed, exactly like the real cell.
//!
//! Every operation takes the wall-clock second it happens at.
use vstd::prelude::*;
use crate::bytes;

verus! {

/// The host's wall clock, as the standard library reads it.
#[verifier::external_type_specification]
#[verifier::external_body]
pub struct ExSystemTime(std::time::SystemTime);

#[verifier::external_type_specification]
#[verifier::external_body]
pub struct ExSystemTimeError(std::time::SystemTimeError);

/// `SystemTime::now` reads the host clock. Nothing is claimed of what it returns.
pub assume_specification[ std::time::SystemTime::now ]() -> std::time::SystemTime
;

/// The whole seconds of a duration.
pub uninterp spec fn seconds_in(d: std::time::Duration) -> u64;

/// `Duration::as_secs` counts the whole seconds of a duration: one duration has one
/// count. How a duration holds them is not said.
pub assume_specification[ std::time::Duration::as_secs ](d: &std::time::Duration) -> (seconds: u64)
    ensures
        seconds == seconds_in(*d),
;

/// How far a moment lies after the Unix epoch, or that it lies before it.
pub uninterp spec fn distance_from_epoch(t: std::time::SystemTime) -> Result<
    std::time::Duration,
    std::time::SystemTimeError,
>;

/// `SystemTime::duration_since`, measured from the Unix epoch; an error when the moment
/// lies before it. One moment has one distance; how large it is, is not said.
#[verifier::external_body]
fn since_epoch(t: &std::time::SystemTime) -> (since: Result<
    std::time::Duration,
    std::time::SystemTimeError,
>)
    ensures
        since == distance_from_epoch(*t),
{
    t.duration_since(std::time::UNIX_EPOCH)
}

/// The whole seconds of a distance from the epoch, and zero where the moment lies before
/// it.
pub open spec fn seconds_after_epoch(
    since: Result<std::time::Duration, std::time::SystemTimeError>,
) -> u64 {
    match since {
        Ok(d) => seconds_in(d),
        Err(_) => 0,
    }
}

/// The whole seconds of a distance from the epoch. A clock that stands before the epoch
/// counts as standing at it.
pub fn whole_seconds(
    since: Result<std::time::Duration, std::time::SystemTimeError>,
) -> (seconds: u64)
    ensures
        seconds == seconds_after_epoch(since),
{
    match since {
        Ok(d) => d.as_secs(),
        Err(_) => 0,
    }
}

/// Whether `now` is a second that the host clock shows at some moment.
pub open spec fn host_second(now: u64) -> bool {
    exists|t: std::time::SystemTime|
        now == seconds_after_epoch(#[trigger] distance_from_epoch(t))
}

/// There is such a second.
pub proof fn lemma_some_second() -> (now: u64)
    ensures
        host_second(now),
{
    let t: std::time::SystemTime = arbitrary();
    seconds_after_epoch(distance_from_epoch(t))
}

/// The host's wall clock in whole seconds since the Unix epoch, and zero before it.
/// Which moment it tells depends on when it is called.
pub fn now_secs() -> (seconds: u64)
    ensures
        host_second(seconds),
{
    whole_seconds(since_epoch(&std::time::SystemTime::now()))
}

pub struct Rtc {
    /// Wall-clock second the counter is measured from.
    base: u64,
    /// Latched register snapshot presented to the game.
    latched: [u8; 5],
    last_latch_write: u8,
    halted: bool,
    /// Offset applied when the game writes the counter registers directly.
    offset: i64,
    day_carry: bool,
    /// Seconds accumulated at the moment the clock was halted.
    halt_value: u64,
}

/// What an [`Rtc`] holds.
#[verifier::ext_equal]
pub struct RtcState {
    pub base: u64,
    pub latched: Seq<u8>,
    pub last_latch_write: u8,
    pub halted: bool,
    pub offset: i64,
    pub day_carry: bool,
    pub halt_value: u64,
}

/// Length of a saved clock without the moment it was saved at.
pub const SAVE_LEN: usize = 15;

/// Length of a saved clock that ends in the moment it was saved at.
pub const STAMPED_LEN: usize = 23;

impl RtcState {
    /// A clock that starts from zero at `now`.
    pub open spec fn started(now: u64) -> RtcState {
        RtcState {
            base: now,
            latched: seq![0u8, 0, 0, 0, 0],
            last_latch_write: 0xff,
            halted: false,
            offset: 0,
            day_carry: false,
            halt_value: 0,
        }
    }

    /// Seconds counted at `now`, before the game's own adjustment.
    pub open spec fn raw(self, now: u64) -> u64 {
        if self.halted {
            self.halt_value
        } else if now >= self.base {
            (now - self.base) as u64
        } else {
            0
        }
    }

    /// Seconds on the clock at `now`.
    pub open spec fn elapsed(self, now: u64) -> u64 {
        let seconds = (self.raw(now) as i64).wrapping_add(self.offset);
        if seconds < 0 {
            0
        } else {
            seconds as u64
        }
    }

    /// Seconds, minutes, hours, low day byte, and the control register: bit 0 the
    /// day's ninth bit, bit 6 halt, bit 7 the day counter's carry.
    pub open spec fn registers(self, now: u64) -> Seq<u8> {
        let secs = self.elapsed(now) as int;
        let days = secs / 86_400;
        seq![
            (secs % 60) as u8,
            (secs / 60 % 60) as u8,
            (secs / 3600 % 24) as u8,
            (days % 256) as u8,
            (days / 256 % 2 + (if self.halted {
                64int
            } else {
                0
            }) + (if self.day_carry || days > 511 {
                128int
            } else {
                0
            })) as u8,
        ]
    }

    /// Writing 0 and then 1 to the latch takes the snapshot.
    pub open spec fn latch_written(self, value: u8, now: u64) -> RtcState {
        RtcState {
            latched: if self.last_latch_write == 0 && value == 1 {
                self.registers(now)
            } else {
                self.latched
            },
            last_latch_write: value,
            ..self
        }
    }

    /// The seconds that five register values stand for.
    pub open spec fn seconds_of(regs: Seq<u8>) -> int {
        regs[0] + regs[1] * 60 + regs[2] * 3600 + (regs[3] + 256 * (regs[4] as int % 2)) * 86_400
    }

    /// The control register takes effect: halting remembers the count, and resuming
    /// measures from the moment that makes the count go on where it stopped.
    pub open spec fn controlled(self, value: u8, now: u64) -> RtcState {
        let halted = value & 0x40 != 0;
        RtcState {
            halted,
            day_carry: value & 0x80 != 0,
            halt_value: if halted && !self.halted {
                self.raw(now)
            } else {
                self.halt_value
            },
            base: if !halted && self.halted {
                if now >= self.halt_value {
                    (now - self.halt_value) as u64
                } else {
                    0
                }
            } else {
                self.base
            },
            ..self
        }
    }

    /// The game sets register `reg`, 0x08 to 0x0c. The offset is derived anew, so that
    /// the requested time reads back.
    pub open spec fn written(self, reg: u8, value: u8, now: u64) -> RtcState {
        let idx = reg - 0x08;
        let regs = self.registers(now).update(idx, value);
        let next = if idx == 4 {
            self.controlled(value, now)
        } else {
            self
        };
        RtcState {
            latched: self.latched.update(idx, value),
            offset: (Self::seconds_of(regs) as i64).wrapping_sub(next.raw(now) as i64),
            ..next
        }
    }

    /// The saved form: the count, the latched registers, the two flags, and the moment
    /// of saving.
    pub open spec fn saved(self, now: u64) -> Seq<u8> {
        bytes::le64(self.elapsed(now)) + self.latched + seq![
            if self.halted {
                1u8
            } else {
                0u8
            },
            if self.day_carry {
                1u8
            } else {
                0u8
            },
        ] + bytes::le64(now)
    }

    /// The seconds that passed between saving `data` and `now`. Without the moment of
    /// saving, and when the host clock was set back, none.
    pub open spec fn away(data: Seq<u8>, now: u64) -> u64 {
        if data.len() >= STAMPED_LEN && bytes::from_le64(data, 15) <= now {
            (now - bytes::from_le64(data, 15)) as u64
        } else {
            0
        }
    }

    /// The offset that makes up for a count of `total` seconds that is more than the host
    /// clock's own at `now`.
    pub open spec fn excess(total: int, now: u64) -> i64 {
        if total <= now {
            0
        } else if total - now <= i64::MAX {
            (total - now) as i64
        } else {
            i64::MAX
        }
    }

    /// The clock as restored from `data` at `now`: it has gone on counting since, unless
    /// it was halted.
    pub open spec fn restored(self, data: Seq<u8>, now: u64) -> RtcState {
        if data.len() < SAVE_LEN {
            self
        } else {
            let count = bytes::from_le64(data, 0);
            let total = count + Self::away(data, now);
            RtcState {
                base: if total <= now {
                    (now - total) as u64
                } else {
                    0
                },
                latched: data.subrange(8, 13),
                halted: data[13] != 0,
                day_carry: data[14] != 0,
                offset: if data[13] != 0 {
                    0
                } else {
                    Self::excess(total, now)
                },
                halt_value: count,
                ..self
            }
        }
    }
}

impl View for Rtc {
    type V = RtcState;

    closed spec fn view(&self) -> RtcState {
        RtcState {
            base: self.base,
            latched: self.latched@,
            last_latch_write: self.last_latch_write,
            halted: self.halted,
            offset: self.offset,
            day_carry: self.day_carry,
            halt_value: self.halt_value,
        }
    }
}

impl Rtc {
    pub fn new(now: u64) -> (rtc: Self)
        ensures
            rtc@ == RtcState::started(now),
    {
        let rtc = Rtc {
            base: now,
            latched: [0, 0, 0, 0, 0],
            last_latch_write: 0xff,
            halted: false,
            offset: 0,
            day_carry: false,
            halt_value: 0,
        };
        assert(rtc@ =~= RtcState::started(now));
        rtc
    }

    fn raw(&self, now: u64) -> (seconds: u64)
        ensures
            seconds == self@.raw(now),
    {
        if self.halted {
            self.halt_value
        } else {
            now.saturating_sub(self.base)
        }
    }

    pub fn elapsed(&self, now: u64) -> (seconds: u64)
        ensures
            seconds == self@.elapsed(now),
    {
        let seconds: i64 = (self.raw(now) as i64).wrapping_add(self.offset);
        if seconds < 0 {
            0
        } else {
            seconds as u64
        }
    }

    pub fn registers(&self, now: u64) -> (regs: [u8; 5])
        ensures
            regs@ == self@.registers(now),
    {
        let secs: u64 = self.elapsed(now);
        let days: u64 = secs / 86_400;
        let high: u8 = (days / 256 % 2) as u8;
        let halt: u8 = if self.halted {
            64
        } else {
            0
        };
        let carry: u8 = if self.day_carry || days > 511 {
            128
        } else {
            0
        };
        let regs: [u8; 5] = [
            (secs % 60) as u8,
            (secs / 60 % 60) as u8,
            (secs / 3600 % 24) as u8,
            (days % 256) as u8,
            high + halt + carry,
        ];
        assert(regs@ =~= self@.registers(now));
        regs
    }

    pub fn write_latch(&mut self, value: u8, now: u64)
        ensures
            final(self)@ == old(self)@.latch_written(value, now),
    {
        if self.last_latch_write == 0x00 && value == 0x01 {
            self.latched = self.registers(now);
        }
        self.last_latch_write = value;
    }

    pub fn read(&self, reg: u8) -> (value: u8)
        requires
            0x08 <= reg <= 0x0c,
        ensures
            value == self@.latched[reg - 0x08],
    {
        self.latched[(reg - 0x08) as usize]
    }

    pub fn write(&mut self, reg: u8, value: u8, now: u64)
        requires
            0x08 <= reg <= 0x0c,
        ensures
            final(self)@ == old(self)@.written(reg, value, now),
    {
        let mut regs: [u8; 5] = self.registers(now);
        let idx: usize = (reg - 0x08) as usize;
        regs[idx] = value;
        self.latched[idx] = value;

        if idx == 4 {
            let was_halted = self.halted;
            let raw: u64 = self.raw(now);
            self.halted = value & 0x40 != 0;
            self.day_carry = value & 0x80 != 0;
            if self.halted && !was_halted {
                self.halt_value = raw;
            } else if !self.halted && was_halted {
                self.base = now.saturating_sub(self.halt_value);
            }
        }
        // Re-derive the offset so the requested time reads back verbatim.

        let target: u64 = regs[0] as u64 + regs[1] as u64 * 60 + regs[2] as u64 * 3600 + (
        regs[3] as u64 + 256 * (regs[4] % 2) as u64) * 86_400;
        let raw: u64 = self.raw(now);
        self.offset = (target as i64).wrapping_sub(raw as i64);
    }

    pub fn serialize(&self, now: u64) -> (out: Vec<u8>)
        ensures
            out@ == self@.saved(now),
    {
        let mut out: Vec<u8> = Vec::new();
        bytes::push_le64(&mut out, self.elapsed(now));
        bytes::push_all(&mut out, self.latched.as_slice());
        out.push(
            if self.halted {
                1
            } else {
                0
            },
        );
        out.push(
            if self.day_carry {
                1
            } else {
                0
            },
        );
        bytes::push_le64(&mut out, now);
        assert(out@ =~= self@.saved(now));
        out
    }

    pub fn deserialize(&mut self, data: &[u8], now: u64)
        ensures
            final(self)@ == old(self)@.restored(data@, now),
    {
        if data.len() < SAVE_LEN {
            return ;
        }
        let count: u64 = bytes::get_le64(data, 0);
        let away: u64 = if data.len() >= STAMPED_LEN {
            now.saturating_sub(bytes::get_le64(data, 15))
        } else {
            0
        };
        self.latched = [data[8], data[9], data[10], data[11], data[12]];
        self.halted = data[13] != 0;
        self.day_carry = data[14] != 0;
        let total: u128 = count as u128 + away as u128;
        self.base = if total <= now as u128 {
            now - total as u64
        } else {
            0
        };
        self.halt_value = count;
        self.offset = if self.halted || total <= now as u128 {
            0
        } else if total - now as u128 <= i64::MAX as u128 {
            (total - now as u128) as i64
        } else {
            i64::MAX
        };
        assert(self@ =~= old(self)@.restored(data@, now));
    }
}

/// While it runs, the clock counts the host's seconds.
pub proof fn law_counts(rtc: RtcState, now: u64, k: u64)
    requires
        !rtc.halted,
        rtc.base <= now,
        now + k <= u64::MAX,
        now + k - rtc.base <= i64::MAX,
        0 <= now - rtc.base + rtc.offset,
        now + k - rtc.base + rtc.offset <= i64::MAX,
    ensures
        rtc.elapsed((now + k) as u64) == rtc.elapsed(now) + k,
{
}

/// While it is halted, the clock stands still.
pub proof fn law_halted_stands(rtc: RtcState, now: u64, later: u64)
    requires
        rtc.halted,
    ensures
        rtc.elapsed(later) == rtc.elapsed(now),
        rtc.registers(later) == rtc.registers(now),
{
}

/// Whether `value` is one that register `reg` can hold.
pub open spec fn holdable(reg: u8, value: u8) -> bool {
    match reg {
        0x08 => value < 60,
        0x09 => value < 60,
        0x0a => value < 24,
        0x0b => true,
        _ => value & 0x3e == 0,
    }
}

proof fn lemma_calendar(s: int, m: int, h: int, d: int)
    requires
        0 <= s < 60,
        0 <= m < 60,
        0 <= h < 24,
        0 <= d,
    ensures
        ({
            let t = s + m * 60 + h * 3600 + d * 86_400;
            t % 60 == s && t / 60 % 60 == m && t / 3600 % 24 == h && t / 86_400 == d
        }),
{
    let t = s + m * 60 + h * 3600 + d * 86_400;
    assert(t / 60 == m + 60 * h + 1440 * d);
    assert(t / 3600 == h + 24 * d);
}

proof fn lemma_control(value: u8)
    by (bit_vector)
    requires
        value & 0x3e == 0,
    ensures
        value == (value % 2) + (if value & 0x40 != 0 {
            64u8
        } else {
            0u8
        }) + (if value & 0x80 != 0 {
            128u8
        } else {
            0u8
        }),
{
}

/// A time that the game sets reads back verbatim, and the other registers keep their
/// values, unless the day counter has run over: then setting the time takes back the carry
/// that showed it.
pub proof fn law_written_reads_back(rtc: RtcState, reg: u8, value: u8, now: u64)
    requires
        0x08 <= reg <= 0x0c,
        holdable(reg, value),
    ensures
        rtc.written(reg, value, now).registers(now)[reg - 0x08] == value,
        forall|i: int|
            0 <= i < 4 && i != reg - 0x08 ==> #[trigger] rtc.written(reg, value, now).registers(
                now,
            )[i] == rtc.registers(now)[i],
        rtc.elapsed(now) < 512 * 86_400 ==> rtc.written(reg, value, now).registers(now)
            == rtc.registers(now).update(reg - 0x08, value),
{
    let before = rtc.registers(now);
    let regs = before.update(reg - 0x08, value);
    let next = rtc.written(reg, value, now);
    let target = RtcState::seconds_of(regs);
    if reg == 0x0c {
        lemma_control(value);
    }
    let secs = rtc.elapsed(now) as int;
    lemma_calendar(
        regs[0] as int,
        regs[1] as int,
        regs[2] as int,
        regs[3] + 256 * (regs[4] as int % 2),
    );
    assert(0 <= target < 512 * 86_400);
    assert(next.elapsed(now) == target);
    assert(next.registers(now).take(4) =~= regs.take(4));
    assert forall|i: int| 0 <= i < 4 implies #[trigger] next.registers(now)[i] == regs[i] by {
        assert(next.registers(now).take(4)[i] == regs.take(4)[i]);
    }
    if rtc.elapsed(now) < 512 * 86_400 {
        assert(next.registers(now) =~= regs);
    }
}

/// What a saved clock is made of.
proof fn lemma_saved_parts(rtc: RtcState, now: u64)
    requires
        rtc.latched.len() == 5,
    ensures
        ({
            let data = rtc.saved(now);
            &&& data.len() == 23
            &&& bytes::from_le64(data, 0) == rtc.elapsed(now)
            &&& bytes::from_le64(data, 15) == now
            &&& data.subrange(8, 13) == rtc.latched
            &&& data[13] != 0 <==> rtc.halted
            &&& data[14] != 0 <==> rtc.day_carry
        }),
{
    let data = rtc.saved(now);
    assert(data.len() == 23);
    assert(data.subrange(0, 8) =~= bytes::le64(rtc.elapsed(now)));
    assert(data.subrange(15, 23) =~= bytes::le64(now));
    bytes::lemma_le64_round_trip(data, 0, rtc.elapsed(now));
    bytes::lemma_le64_round_trip(data, 15, now);
    assert(data.subrange(8, 13) =~= rtc.latched);
}

/// A saved clock goes on counting while the game is closed, and a halted one does not;
/// the latched registers and the flags come back as they were.
pub proof fn law_saved_restores(rtc: RtcState, into: RtcState, now: u64, later: u64)
    requires
        rtc.latched.len() == 5,
        now <= later <= i64::MAX,
        rtc.halted || rtc.elapsed(now) + (later - now) <= i64::MAX,
    ensures
        ({
            let back = into.restored(rtc.saved(now), later);
            &&& back.latched == rtc.latched
            &&& back.halted == rtc.halted
            &&& back.day_carry == rtc.day_carry
            &&& back.elapsed(later) == rtc.elapsed(now) + if rtc.halted {
                0
            } else {
                later - now
            }
        }),
{
    let data = rtc.saved(now);
    lemma_saved_parts(rtc, now);
    let count = rtc.elapsed(now);
    let back = into.restored(data, later);
    assert(RtcState::away(data, later) == later - now);
    if rtc.halted {
        assert(back.raw(later) == count && back.offset == 0);
    } else {
        let total = count + (later - now);
        if total <= later {
            assert(back.raw(later) == total && back.offset == 0);
        } else {
            assert(back.raw(later) == later && back.offset == total - later);
        }
    }
}

} // verus!
