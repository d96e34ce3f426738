//! P1/JOYP. The register reads back inverted: a clear bit means pressed.
use vstd::prelude::*;

verus! {

pub const IRQ_JOYPAD: u8 = 0x10;

#[derive(Debug, Clone, Copy, PartialEq, Eq, Hash, Structural)]
pub enum Button {
    Right,
    Left,
    Up,
    Down,
    A,
    B,
    Select,
    Start,
}

impl Button {
    pub const ALL: [Button; 8] = [
        Button::Right,
        Button::Left,
        Button::Up,
        Button::Down,
        Button::A,
        Button::B,
        Button::Select,
        Button::Start,
    ];

    /// The bit of its row that the button drives.
    #[verifier::allow_in_spec]
    pub fn bit(self) -> u8
        returns
            (match self {
                Button::Right | Button::A => 0x01u8,
                Button::Left | Button::B => 0x02u8,
                Button::Up | Button::Select => 0x04u8,
                Button::Down | Button::Start => 0x08u8,
            }),
    {
        match self {
            Button::Right | Button::A => 0x01,
            Button::Left | Button::B => 0x02,
            Button::Up | Button::Select => 0x04,
            Button::Down | Button::Start => 0x08,
        }
    }

    /// Whether the button is in the action row rather than the direction row.
    #[verifier::allow_in_spec]
    pub fn is_action(self) -> bool
        returns
            (self == Button::A || self == Button::B || self == Button::Select || self
                == Button::Start),
    {
        matches!(self, Button::A | Button::B | Button::Select | Button::Start)
    }
}

#[derive(Debug, Clone, Copy, PartialEq, Eq, Structural)]
pub struct Joypad {
    pub directions: u8,
    pub actions: u8,
    /// Bits 4/5 of P1: which row the game selected.
    pub select: u8,
    pub irq: u8,
}

impl Joypad {
    /// Nothing pressed, neither row selected.
    pub open spec fn idle() -> Joypad {
        Joypad { directions: 0, actions: 0, select: 0x30, irq: 0 }
    }

    /// The pressed buttons of the row that `button` is in.
    pub open spec fn row(self, button: Button) -> u8 {
        if button.is_action() {
            self.actions
        } else {
            self.directions
        }
    }

    /// Whether the game has selected the row that `button` is in.
    pub open spec fn selects(self, button: Button) -> bool {
        self.select & (if button.is_action() {
            0x20u8
        } else {
            0x10u8
        }) == 0
    }

    /// Whether `button` is down.
    pub open spec fn holds(self, button: Button) -> bool {
        self.row(button) & button.bit() != 0
    }

    /// The state once `button` is pressed or released. A press only interrupts while
    /// its row is selected.
    pub open spec fn with(self, button: Button, pressed: bool) -> Joypad {
        let row = if pressed {
            self.row(button) | button.bit()
        } else {
            self.row(button) & !button.bit()
        };
        let irq = if row & !self.row(button) != 0 && self.selects(button) {
            self.irq | IRQ_JOYPAD
        } else {
            self.irq
        };
        if button.is_action() {
            Joypad { actions: row, irq, ..self }
        } else {
            Joypad { directions: row, irq, ..self }
        }
    }

    /// What P1 reads as: a clear low bit for each pressed button of a selected row.
    pub open spec fn reads(self) -> u8 {
        let first = if self.select & 0x10 == 0 {
            0x0fu8 & !self.directions
        } else {
            0x0fu8
        };
        let low = if self.select & 0x20 == 0 {
            first & !self.actions
        } else {
            first
        };
        0xc0 | self.select | low
    }

    pub fn new() -> (joypad: Self)
        ensures
            joypad == Joypad::idle(),
    {
        Joypad { directions: 0, actions: 0, select: 0x30, irq: 0 }
    }

    pub fn set(&mut self, button: Button, pressed: bool)
        ensures
            *final(self) == old(self).with(button, pressed),
    {
        let mask: u8 = button.bit();
        let action = button.is_action();
        let before: u8 = if action {
            self.actions
        } else {
            self.directions
        };
        let after: u8 = if pressed {
            before | mask
        } else {
            before & !mask
        };
        if action {
            self.actions = after;
        } else {
            self.directions = after;
        }
        // A press only interrupts while its row is selected.
        if after & !before != 0 {
            let row_selected = if action {
                self.select & 0x20 == 0
            } else {
                self.select & 0x10 == 0
            };
            if row_selected {
                self.irq = self.irq | IRQ_JOYPAD;
            }
        }
    }

    pub fn read(&self) -> (value: u8)
        ensures
            value == self.reads(),
    {
        let mut low: u8 = 0x0f;
        if self.select & 0x10 == 0 {
            low = low & !self.directions;
        }
        if self.select & 0x20 == 0 {
            low = low & !self.actions;
        }
        0xc0 | self.select | low
    }

    pub fn write(&mut self, value: u8)
        ensures
            *final(self) == (Joypad { select: value & 0x30, ..*old(self) }),
    {
        self.select = value & 0x30;
    }
}

impl Default for Joypad {
    fn default() -> (joypad: Self)
        ensures
            joypad == Joypad::idle(),
    {
        Self::new()
    }
}

proof fn lemma_rows(d: u8, a: u8, s: u8, bit: u8)
    by (bit_vector)
    requires
        bit == 1 || bit == 2 || bit == 4 || bit == 8,
        s & 0x30 == s,
    ensures
        (d | bit) & bit != 0,
        (d & !bit) & bit == 0,
        (d | bit) & !d != 0 <==> d & bit == 0,
        (d & !bit) & !d == 0,
        s & 0x10 == 0 && s & 0x20 != 0 ==> ((0xc0u8 | s | (0x0fu8 & !d)) & bit == 0 <==> d & bit
            != 0),
        s & 0x10 != 0 && s & 0x20 == 0 ==> ((0xc0u8 | s | (0x0fu8 & !a)) & bit == 0 <==> a & bit
            != 0),
        s & 0x10 == 0 && s & 0x20 == 0 ==> ((0xc0u8 | s | ((0x0fu8 & !d) & !a)) & bit == 0 <==> d
            & bit != 0 || a & bit != 0),
        s & 0x10 != 0 && s & 0x20 != 0 ==> (0xc0u8 | s | 0x0fu8) & bit != 0,
{
}

/// P1 reads back inverted: with only its row selected, a button's bit is clear exactly
/// while the button is down.
pub proof fn law_reads_inverted(joypad: Joypad, button: Button)
    requires
        joypad.select & 0x30 == joypad.select,
        joypad.selects(button),
        joypad.select & 0x30 != 0,
    ensures
        joypad.reads() & button.bit() == 0 <==> joypad.holds(button),
{
    lemma_rows(joypad.directions, joypad.actions, joypad.select, button.bit());
    let s = joypad.select;
    crate::hw::bits::lemma_byte(s);
    crate::hw::bits::lemma_byte(0);
}

/// Pressing a button makes it read as held and releasing it as not held; the interrupt
/// is requested exactly when a button that was up goes down in a selected row.
pub proof fn law_set(joypad: Joypad, button: Button, pressed: bool)
    ensures
        joypad.with(button, pressed).holds(button) == pressed,
        joypad.with(button, pressed).irq == if pressed && !joypad.holds(button) && joypad.selects(
            button,
        ) {
            joypad.irq | IRQ_JOYPAD
        } else {
            joypad.irq
        },
{
    crate::hw::bits::lemma_byte(0);
    lemma_rows(joypad.row(button), 0, 0, button.bit());
}

} // verus!
