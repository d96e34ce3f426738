//! The front-end's decisions: which key is which button, where the picture goes in the
//! window, when the next frame is due, and what a report says.
use std::collections::BTreeMap;
use vstd::prelude::*;
use vstd::utf8;
use crate::bytes;
use crate::hw::joypad::Button;
use crate::recomp::ordered;

verus! {

// ---- keys ----------------------------------------------------------------

/// The button that held key number `index` drives.
#[verifier::allow_in_spec]
pub fn button_for(index: usize) -> Button
    requires
        index < 8,
    returns
        Button::ALL@[index as int],
{
    let all = Button::ALL;
    all[index]
}

/// The button that a virtual key code drives, if any: the arrow keys, X and S for A, Z
/// and A for B, Backspace and Shift for Select, Enter and Space for Start.
#[verifier::allow_in_spec]
pub fn bound(vk: u32) -> Option<usize>
    returns
        (match vk {
            0x27 => Some(0usize),
            0x25 => Some(1usize),
            0x26 => Some(2usize),
            0x28 => Some(3usize),
            0x58 | 0x53 => Some(4usize),
            0x5a | 0x41 => Some(5usize),
            0x08 | 0x10 => Some(6usize),
            0x0d | 0x20 => Some(7usize),
            _ => None,
        }),
{
    match vk {
        0x27 => Some(0),
        0x25 => Some(1),
        0x26 => Some(2),
        0x28 => Some(3),
        0x58 | 0x53 => Some(4),
        0x5a | 0x41 => Some(5),
        0x08 | 0x10 => Some(6),
        0x0d | 0x20 => Some(7),
        _ => None,
    }
}

/// Quits the game.
pub const VK_ESCAPE: u32 = 0x1b;

/// Held to run the game as fast as the host allows.
pub const VK_TAB: u32 = 0x09;

/// Which keys are held.
pub struct Keyboard {
    held: [bool; 8],
    quit: bool,
    turbo: bool,
}

/// What a [`Keyboard`] knows.
pub struct Keys {
    pub held: Seq<bool>,
    pub quit: bool,
    pub turbo: bool,
}

impl View for Keyboard {
    type V = Keys;

    closed spec fn view(&self) -> Keys {
        Keys { held: self.held@, quit: self.quit, turbo: self.turbo }
    }
}

impl Keys {
    pub open spec fn none() -> Keys {
        Keys { held: Seq::new(8, |i: int| false), quit: false, turbo: false }
    }

    /// The key `vk` goes down or up.
    pub open spec fn after(self, vk: u32, down: bool) -> Keys {
        Keys {
            held: match bound(vk) {
                Some(i) => self.held.update(i as int, down),
                None => self.held,
            },
            quit: self.quit || vk == VK_ESCAPE && down,
            turbo: if vk == VK_TAB {
                down
            } else {
                self.turbo
            },
        }
    }
}

impl Keyboard {
    pub fn new() -> (keyboard: Keyboard)
        ensures
            keyboard@ == Keys::none(),
    {
        let keyboard = Keyboard { held: [false;8], quit: false, turbo: false };
        assert(keyboard.held@ =~= Keys::none().held);
        keyboard
    }

    pub fn key(&mut self, vk: u32, down: bool)
        ensures
            final(self)@ == old(self)@.after(vk, down),
    {
        if vk == VK_ESCAPE && down {
            self.quit = true;
        }
        if vk == VK_TAB {
            self.turbo = down;
        }
        if let Some(i) = bound(vk) {
            self.held[i] = down;
        }
    }

    /// The window has been closed.
    pub fn close(&mut self)
        ensures
            final(self)@ == (Keys { quit: true, ..old(self)@ }),
    {
        self.quit = true;
    }

    pub fn buttons(&self) -> (held: [bool; 8])
        ensures
            held@ == self@.held,
    {
        self.held
    }

    pub fn turbo(&self) -> (on: bool)
        ensures
            on == self@.turbo,
    {
        self.turbo
    }

    pub fn quits(&self) -> (yes: bool)
        ensures
            yes == self@.quit,
    {
        self.quit
    }
}

/// A button reads as held exactly while the last of its keys that moved went down.
pub proof fn law_key_drives_button(keys: Keys, vk: u32, down: bool, i: int)
    requires
        keys.held.len() == 8,
        0 <= i < 8,
    ensures
        keys.after(vk, down).held.len() == 8,
        keys.after(vk, down).held[i] == if bound(vk) == Some(i as usize) {
            down
        } else {
            keys.held[i]
        },
{
}

// ---- the picture ---------------------------------------------------------

/// Where the picture goes in the window.
#[derive(Debug, Clone, Copy, PartialEq, Eq, Structural)]
pub struct Frame {
    pub x: i32,
    pub y: i32,
    pub w: i32,
    pub h: i32,
}

/// Half of `n`, towards zero.
pub open spec fn half(n: int) -> int {
    if n >= 0 {
        n / 2
    } else {
        -((-n) / 2)
    }
}

/// The largest whole multiple of the screen that fits a `w` by `h` window, at least one.
pub open spec fn multiple(w: int, h: int) -> int {
    let across = w / 160;
    let down = h / 144;
    let both = if across <= down {
        across
    } else {
        down
    };
    if both < 1 {
        1
    } else {
        both
    }
}

/// Where the picture goes: the whole window, or centred in it at a whole multiple of its
/// size.
pub open spec fn placed(w: int, h: int, keep_aspect: bool) -> (int, int, int, int) {
    if keep_aspect && w > 0 && h > 0 {
        let n = multiple(w, h);
        (half(w - 160 * n), half(h - 144 * n), 160 * n, 144 * n)
    } else {
        (0, 0, w, h)
    }
}

fn halve(n: i32) -> (r: i32)
    requires
        n > i32::MIN,
    ensures
        r == half(n as int),
{
    if n >= 0 {
        n / 2
    } else {
        let m: i32 = -n;
        -(m / 2)
    }
}

/// Scales the picture to a `w` by `h` window, keeping its shape if asked.
pub fn place(w: i32, h: i32, keep_aspect: bool) -> (frame: Frame)
    ensures
        (frame.x as int, frame.y as int, frame.w as int, frame.h as int) == placed(
            w as int,
            h as int,
            keep_aspect,
        ),
{
    if keep_aspect && w > 0 && h > 0 {
        let across: i32 = w / 160;
        let down: i32 = h / 144;
        let both: i32 = if across <= down {
            across
        } else {
            down
        };
        let n: i32 = if both < 1 {
            1
        } else {
            both
        };
        let (fit_w, fit_h): (i32, i32) = (160 * n, 144 * n);
        Frame { x: halve(w - fit_w), y: halve(h - fit_h), w: fit_w, h: fit_h }
    } else {
        Frame { x: 0, y: 0, w, h }
    }
}

/// A window that is large enough shows the whole picture, in its own shape and centred
/// to within a pixel.
pub proof fn law_picture_fits(w: int, h: int)
    requires
        w >= 160,
        h >= 144,
    ensures
        ({
            let (x, y, fw, fh) = placed(w, h, true);
            &&& fw * 9 == fh * 10
            &&& 0 <= x && x + fw <= w && 0 <= y && y + fh <= h
            &&& 0 <= w - fw - 2 * x <= 1
            &&& 0 <= h - fh - 2 * y <= 1
        }),
{
}

// ---- pacing --------------------------------------------------------------

/// A monotonic clock for holding the game to the right speed.
#[derive(Debug, Clone, Copy, PartialEq, Eq, Structural)]
pub struct Clock {
    /// Counts per second.
    pub frequency: i64,
    /// The count at which the next frame is due.
    pub next_frame: i64,
}

/// What to do until the next frame is due.
#[derive(Debug, Clone, Copy, PartialEq, Eq, Structural)]
pub enum Pause {
    /// It is due.
    Over,
    /// It is due very soon; look again.
    Spin,
    /// Sleep so many milliseconds, and look again.
    Sleep(u32),
}

impl Clock {
    /// The clock once a frame of `period` ticks has been shown at `now`: the next one is due
    /// a period later, unless that is more than four periods in the past.
    pub open spec fn advanced(self, period: int, now: int) -> Clock {
        Clock {
            next_frame: (if now <= self.next_frame + 5 * period {
                self.next_frame + period
            } else {
                now
            }) as i64,
            ..self
        }
    }

    /// What to do at `now` until the next frame is due.
    pub open spec fn paused(self, now: int) -> Pause {
        let ms = (self.next_frame - now) * 1000 / self.frequency as int;
        if now >= self.next_frame {
            Pause::Over
        } else if ms > 2 {
            Pause::Sleep((ms - 1) as u32)
        } else {
            Pause::Spin
        }
    }

    /// A clock of `frequency` counts per second, with a frame due now.
    pub fn new(frequency: i64, now: i64) -> (clock: Clock)
        ensures
            clock.frequency == (if frequency < 1 {
                1
            } else {
                frequency
            }),
            clock.next_frame == now,
    {
        Clock {
            frequency: if frequency < 1 {
                1
            } else {
                frequency
            },
            next_frame: now,
        }
    }

    /// The next frame is due a `period` after the last one, unless the game has fallen
    /// more than four periods behind: then the count starts over, rather than sprinting
    /// through a backlog. Says whether there is anything to wait for.
    pub fn advance(&mut self, period: i64, now: i64) -> (wait: bool)
        requires
            0 <= period,
            4 * period <= i64::MAX,
            old(self).next_frame + 5 * period <= i64::MAX,
        ensures
            wait == (now <= old(self).next_frame + 5 * period),
            *final(self) == (Clock {
                next_frame: if now <= old(self).next_frame + 5 * period {
                    (old(self).next_frame + period) as i64
                } else {
                    now
                },
                ..*old(self)
            }),
            *final(self) == old(self).advanced(period as int, now as int),
    {
        self.next_frame = self.next_frame + period;
        if now > self.next_frame + period * 4 {
            self.next_frame = now;
            return false;
        }
        true
    }

    /// What to do at count `now`: sleep most of a long wait, and spin through the rest.
    pub fn pause(&self, now: i64) -> (pause: Pause)
        requires
            self.frequency >= 1,
        ensures
            pause == ({
                let ms = (self.next_frame - now) * 1000 / self.frequency as int;
                if now >= self.next_frame {
                    Pause::Over
                } else if ms > 2 {
                    Pause::Sleep((ms - 1) as u32)
                } else {
                    Pause::Spin
                }
            }),
            pause == self.paused(now as int),
    {
        if now >= self.next_frame {
            return Pause::Over;
        }
        let remaining: i128 = self.next_frame as i128 - now as i128;
        let ms: i128 = remaining * 1000 / self.frequency as i128;
        if ms > 2 {
            Pause::Sleep((ms - 1) as u32)
        } else {
            Pause::Spin
        }
    }

    /// The next frame is due now.
    pub fn resync(&mut self, now: i64)
        ensures
            *final(self) == (Clock { next_frame: now, ..*old(self) }),
    {
        self.next_frame = now;
    }
}

// ---- sound buffers -------------------------------------------------------

/// Sound buffers in the ring.
pub const AUDIO_BUFFERS: usize = 4;

/// Sample frames in one buffer: a fiftieth of a second, and 256 at the least.
pub open spec fn buffer_frames(sample_rate: int) -> int {
    if sample_rate / 50 < 256 {
        256
    } else {
        sample_rate / 50
    }
}

/// Samples that are let pile up: a quarter of a second of both sides.
pub open spec fn most_samples(sample_rate: int) -> int {
    sample_rate / 4 * 2
}

/// How many of `queued` samples are dropped where a buffer takes `needed`.
pub open spec fn dropped(queued: int, needed: int) -> int {
    if queued > needed * 8 {
        queued - needed * 4
    } else {
        0
    }
}

/// Sample pairs per buffer: a fifth of a second of latency, split across the ring.
pub fn frames_per_buffer(sample_rate: u32) -> (frames: usize)
    ensures
        frames == (if sample_rate / 50 < 256 {
            256
        } else {
            sample_rate / 50
        }),
        frames == buffer_frames(sample_rate as int),
{
    let frames: usize = sample_rate as usize / 50;
    if frames < 256 {
        256
    } else {
        frames
    }
}

/// How many samples are kept for a front-end that does not take them: a quarter of a
/// second, in pairs.
pub fn sample_cap(sample_rate: u32) -> (samples: usize)
    ensures
        samples == sample_rate / 4 * 2,
        samples == most_samples(sample_rate as int),
{
    sample_rate as usize / 4 * 2
}

/// How many of `queued` samples to throw away, when a buffer takes `needed`: if the game
/// has run far ahead, everything beyond one ring.
pub fn backlog(queued: usize, needed: usize) -> (excess: usize)
    requires
        needed <= 0x1000_0000,
    ensures
        excess == (if queued > needed * 8 {
            queued - needed * 4
        } else {
            0
        }),
        excess == dropped(queued as int, needed as int),
{
    if queued > needed * AUDIO_BUFFERS * 2 {
        queued - needed * AUDIO_BUFFERS
    } else {
        0
    }
}

// ---- reports -------------------------------------------------------------

/// How many different colours are on screen. A frame that shows only one usually means
/// nothing is running.
pub fn distinct_colours(frame: &[u32]) -> (n: usize)
    ensures
        n == frame@.to_set().len(),
{
    broadcast use ordered::group_numbers;

    let mut seen: BTreeMap<u32, ()> = BTreeMap::new();
    assert(seen@.dom() =~= frame@.take(0).to_set());
    for i in 0..frame.len()
        invariant
            seen@.dom() == frame@.take(i as int).to_set(),
    {
        seen.insert(frame[i], ());
        proof {
            let before = frame@.take(i as int);
            assert(frame@.take(i + 1) =~= before.push(frame@[i as int]));
            assert(before.push(frame@[i as int]).to_set() =~= before.to_set().insert(
                frame@[i as int],
            )) by {
                broadcast use vstd::seq_lib::group_seq_properties;

            }
        }
    }
    assert(frame@.take(frame@.len() as int) =~= frame@);
    seen.len()
}

/// The three bytes of a pixel, red first.
pub open spec fn rgb_bytes(pixel: u32) -> Seq<u8> {
    seq![
        (pixel / 0x1_0000 % 256) as u8,
        (pixel / 0x100 % 256) as u8,
        (pixel % 256) as u8,
    ]
}

/// The bytes of a row of pixels.
pub open spec fn pixel_bytes(frame: Seq<u32>) -> Seq<u8>
    decreases frame.len(),
{
    if frame.len() == 0 {
        seq![]
    } else {
        pixel_bytes(frame.drop_last()) + rgb_bytes(frame.last())
    }
}

/// A frame as a portable pixmap file.
pub open spec fn ppm_bytes(frame: Seq<u32>) -> Seq<u8> {
    utf8::encode_utf8("P6\n160 144\n255\n"@) + pixel_bytes(frame)
}

/// Writes a frame as a portable pixmap file.
pub fn ppm(frame: &[u32]) -> (file: Vec<u8>)
    ensures
        file@ == ppm_bytes(frame@),
{
    let mut file: Vec<u8> = Vec::new();
    bytes::push_all(&mut file, "P6\n160 144\n255\n".as_bytes());
    let ghost header = file@;
    assert(header =~= utf8::encode_utf8("P6\n160 144\n255\n"@));
    assert(header + pixel_bytes(frame@.take(0)) =~= header);
    for i in 0..frame.len()
        invariant
            file@ == header + pixel_bytes(frame@.take(i as int)),
    {
        let pixel: u32 = frame[i];
        file.push((pixel / 0x1_0000 % 256) as u8);
        file.push((pixel / 0x100 % 256) as u8);
        file.push((pixel % 256) as u8);
        assert(frame@.take(i + 1).drop_last() =~= frame@.take(i as int));
        assert(file@ =~= header + pixel_bytes(frame@.take(i + 1)));
    }
    assert(frame@.take(frame@.len() as int) =~= frame@);
    file
}

} // verus!
