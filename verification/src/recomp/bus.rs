//! The hardware as a running program sees it.
//!
//! A game talks to the hardware by letting time pass, by reading and by writing.
//! [`Event`] is one such contact. Whatever the hardware answers is fixed by what
//! it was told before, so a [`Hardware`] is a set of functions from the events so
//! far to the answer. Both the instruction set and the machine code that stands
//! for it are described against the same hardware.

use vstd::prelude::*;
use crate::recomp::abi::{GbState, JumpEntry, EXIT_HALT, EXIT_NONE, EXIT_STOP, EXIT_YIELD};

verus! {

/// One contact between the game and the hardware.
pub enum Event {
    /// That many cycles have passed.
    Tick(u32),
    Read(u16),
    Write(u16, u8),
    /// A point at which the hardware may take control back.
    Sync,
    Halt,
    Stop,
}

/// What a helper may leave in the registers it does not have to preserve.
pub struct Leftover {
    pub rax: u64,
    pub rcx: u64,
    pub rdx: u64,
    pub r8: u64,
    pub r9: u64,
    pub r10: u64,
    pub r11: u64,
    pub zf: bool,
    pub cf: bool,
}

/// The hardware's answers, as functions of the events so far.
pub struct Hardware {
    /// The byte a read of an address returns.
    pub byte: spec_fn(Seq<Event>, u16) -> u8,
    /// The bank generation after a write, given the one before it.
    pub generation: spec_fn(Seq<Event>, u32) -> u32,
    /// Whether control has to go back, given whether interrupts are enabled.
    pub wants: spec_fn(Seq<Event>, bool) -> bool,
    /// Whether a stop was a speed switch, after which the game goes on.
    pub resumes: spec_fn(Seq<Event>) -> bool,
    /// What the volatile host registers hold after a helper ran.
    pub leftover: spec_fn(Seq<Event>) -> Leftover,
    /// The inline jump cache.
    pub table: spec_fn(Seq<Event>) -> Seq<JumpEntry>,
    /// Where the inline jump cache lies in host memory.
    pub table_at: u64,
}

/// `x` reduced to 32 bits.
pub open spec fn wrap32(x: int) -> u32 {
    (x % 0x1_0000_0000) as u32
}

/// The game's registers, and what it has told the hardware so far.
#[verifier::ext_equal]
pub struct World {
    pub st: GbState,
    pub log: Seq<Event>,
}

impl World {
    pub open spec fn say(self, event: Event) -> World {
        World { st: self.st, log: self.log.push(event) }
    }

    pub open spec fn with(self, st: GbState) -> World {
        World { st, log: self.log }
    }

    /// Hand over every cycle run since the hardware was last told, and `extra`
    /// more.
    pub open spec fn settle(self, extra: int) -> World {
        let owed = wrap32(self.st.pending + extra);
        let st = GbState { pending: 0, ..self.st };
        if owed != 0 {
            World { st, log: self.log.push(Event::Tick(owed)) }
        } else {
            World { st, log: self.log }
        }
    }

    /// The world after reading `addr`.
    pub open spec fn read(self, addr: u16) -> World {
        self.settle(4).say(Event::Read(addr))
    }

    /// The byte that reading `addr` returns.
    pub open spec fn read_value(self, hw: Hardware, addr: u16) -> u8 {
        (hw.byte)(self.settle(4).log, addr)
    }

    pub open spec fn write(self, hw: Hardware, addr: u16, value: u8) -> World {
        let w = self.settle(4).say(Event::Write(addr, value));
        w.with(GbState { bank_gen: (hw.generation)(w.log, w.st.bank_gen), ..w.st })
    }

    /// Let a pending `EI` take effect, and leave if the hardware wants control.
    pub open spec fn sync(self, hw: Hardware) -> World {
        let w = self.settle(0).say(Event::Sync);
        let st = sync_ime(w.st);
        if (hw.wants)(w.log, st.ime != 0) {
            w.with(GbState { exit: EXIT_YIELD, ..st })
        } else {
            w.with(st)
        }
    }

    pub open spec fn halt(self) -> World {
        let w = self.settle(0).say(Event::Halt);
        w.with(GbState { halted: 1, exit: EXIT_HALT, ..w.st })
    }

    pub open spec fn stop(self, hw: Hardware) -> World {
        let w = self.settle(0).say(Event::Stop);
        w.with(
            GbState {
                exit: if (hw.resumes)(w.log) {
                    EXIT_NONE
                } else {
                    EXIT_STOP
                },
                ..w.st
            },
        )
    }
}

/// The delayed effect of `EI`: one step of the countdown, and interrupts come on
/// when it runs out.
pub open spec fn sync_ime(st: GbState) -> GbState {
    if st.ime_delay == 0 {
        st
    } else if st.ime_delay == 1 {
        GbState { ime_delay: 0, ime: 1, ..st }
    } else {
        GbState { ime_delay: (st.ime_delay - 1) as u8, ..st }
    }
}

} // verus!
