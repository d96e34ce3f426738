//! What a player sees and does: the keys, the picture in its window, and the beat of the
//! frames.
use vstd::prelude::*;
use crate::front;
use crate::front::{Clock, Keys, Pause};
use crate::hw::joypad::Button;

verus! {

/// Whether the key `vk` is one for `button`: the arrows, X or S for A, Z or A for B,
/// backspace or shift for select, enter or space for start.
pub open spec fn plays(vk: u32, button: Button) -> bool {
    match button {
        Button::Right => vk == 0x27,
        Button::Left => vk == 0x25,
        Button::Up => vk == 0x26,
        Button::Down => vk == 0x28,
        Button::A => vk == 'X' as u32 || vk == 'S' as u32,
        Button::B => vk == 'Z' as u32 || vk == 'A' as u32,
        Button::Select => vk == 0x08 || vk == 0x10,
        Button::Start => vk == 0x0d || vk == 0x20,
    }
}

/// A key going down or up moves the button it plays, and no other; escape asks to quit and
/// tab to hurry for as long as it is down.
pub proof fn law_keys(keys: Keys, vk: u32, down: bool, i: int)
    requires
        keys.held.len() == 8,
        0 <= i < 8,
    ensures
        keys.after(vk, down).held[i] == if plays(vk, Button::ALL@[i]) {
            down
        } else {
            keys.held[i]
        },
        keys.after(vk, down).quit == (keys.quit || vk == 0x1b && down),
        keys.after(vk, down).turbo == (if vk == 0x09 {
            down
        } else {
            keys.turbo
        }),
{
    let all = Button::ALL@;
    assert(all[0] == Button::Right && all[1] == Button::Left && all[2] == Button::Up && all[3]
        == Button::Down && all[4] == Button::A && all[5] == Button::B && all[6] == Button::Select
        && all[7] == Button::Start);
}

/// The eight buttons, each once, in the order that the window reports them.
pub proof fn law_buttons(i: usize, j: usize)
    requires
        i < j < 8,
    ensures
        front::button_for(i) != front::button_for(j),
        front::button_for(i).is_action() == (i >= 4),
{
    let all = Button::ALL@;
    assert(all[0] == Button::Right && all[1] == Button::Left && all[2] == Button::Up && all[3]
        == Button::Down && all[4] == Button::A && all[5] == Button::B && all[6] == Button::Select
        && all[7] == Button::Start);
}

/// The picture in a window of `w` by `h`: as many times 160 by 144 as fit both ways, or once
/// in a window that is too small; stretched to fill it if its shape need not be kept.
pub proof fn law_picture(w: int, h: int)
    requires
        w > 0,
        h > 0,
    ensures
        ({
            let (x, y, fw, fh) = front::placed(w, h, true);
            &&& fw % 160 == 0
            &&& fh % 144 == 0
            &&& fw / 160 == fh / 144
            &&& fw >= 160
            &&& w >= 160 && h >= 144 ==> fw <= w && fh <= h
            &&& fw + 160 > w || fh + 144 > h
            &&& w < 160 || h < 144 ==> fw == 160 && fh == 144
            &&& -1 <= w - fw - 2 * x <= 1
            &&& -1 <= h - fh - 2 * y <= 1
        }),
        front::placed(w, h, false) == (0int, 0int, w, h),
{
}

proof fn lemma_pixels_length(frame: Seq<u32>)
    ensures
        front::pixel_bytes(frame).len() == 3 * frame.len(),
    decreases frame.len(),
{
    if frame.len() > 0 {
        lemma_pixels_length(frame.drop_last());
    }
}

/// A picture file holds three bytes for every pixel, red, green and blue.
pub proof fn law_picture_file(frame: Seq<u32>, i: int)
    requires
        0 <= i < frame.len(),
        frame[i] < 0x100_0000,
    ensures
        ({
            let data = front::pixel_bytes(frame);
            &&& data.len() == 3 * frame.len()
            &&& 0x1_0000 * data[3 * i] + 0x100 * data[3 * i + 1] + data[3 * i + 2] == frame[i]
        }),
    decreases frame.len(),
{
    let rest = frame.drop_last();
    lemma_pixels_length(rest);
    lemma_pixels_length(frame);
    let data = front::pixel_bytes(frame);
    let before = front::pixel_bytes(rest);
    if i < frame.len() - 1 {
        law_picture_file(rest, i);
        assert(data[3 * i] == before[3 * i] && data[3 * i + 1] == before[3 * i + 1] && data[3 * i
            + 2] == before[3 * i + 2]);
    } else {
        let last = front::rgb_bytes(frame.last());
        assert(data[3 * i] == last[0] && data[3 * i + 1] == last[1] && data[3 * i + 2] == last[2]);
    }
}

/// A game that keeps up is due one period after its last frame each time; one that has
/// fallen more than four periods behind starts counting afresh.
pub proof fn law_beat(clock: Clock, period: int, now: int)
    requires
        0 <= period <= 0x1000_0000,
        -0x1000_0000_0000 <= clock.next_frame <= 0x1000_0000_0000,
        i64::MIN <= now <= i64::MAX,
    ensures
        now - (clock.next_frame + period) <= 4 * period ==> clock.advanced(
            period,
            now,
        ).next_frame - clock.next_frame == period,
        now - (clock.next_frame + period) > 4 * period ==> clock.advanced(period, now).next_frame
            == now,
        clock.advanced(period, now).frequency == clock.frequency,
{
}

/// Waiting never oversleeps: a sleep of so many milliseconds ends before the frame is due,
/// and the last two are waited for by looking.
pub proof fn law_waiting(clock: Clock, now: int)
    requires
        clock.frequency >= 1,
        clock.next_frame - now <= 0x1_0000_0000 * clock.frequency / 1000,
    ensures
        clock.paused(now) is Over <==> now >= clock.next_frame,
        clock.paused(now) matches Pause::Sleep(ms) ==> {
            &&& ms >= 2
            &&& now + ms * clock.frequency / 1000 < clock.next_frame
        },
        clock.paused(now) is Spin ==> (clock.next_frame - now) * 1000 < 3 * clock.frequency,
{
    let f = clock.frequency as int;
    let left = clock.next_frame - now;
    let ms = left * 1000 / f;
    if left > 0 {
        assert(ms * f <= left * 1000 < ms * f + f) by (nonlinear_arith)
            requires
                f >= 1,
                ms == left * 1000 / f,
                left > 0,
        ;
        if ms > 2 {
            assert(ms <= 0x1_0000_0000) by (nonlinear_arith)
                requires
                    ms * f <= left * 1000,
                    left * 1000 <= 0x1_0000_0000 * f,
                    f >= 1,
            ;
            assert((ms - 1) * f == ms * f - f) by (nonlinear_arith);
            assert((ms - 1) * f / 1000 < left);
        } else {
            assert(ms * f + f <= 3 * f) by (nonlinear_arith)
                requires
                    ms <= 2,
                    f >= 1,
            ;
        }
    }
}

/// A sound buffer lasts a fiftieth of a second, unless that is fewer than 256 frames; what
/// may pile up lasts a quarter of a second, of two samples a frame.
pub proof fn law_sound_buffers(rate: int)
    requires
        rate >= 0,
    ensures
        front::buffer_frames(rate) >= 256,
        rate >= 12_800 ==> front::buffer_frames(rate) * 50 <= rate && rate < (front::buffer_frames(
            rate,
        ) + 1) * 50,
        rate < 12_800 ==> front::buffer_frames(rate) == 256,
        front::most_samples(rate) % 2 == 0,
        front::most_samples(rate) * 2 <= rate < front::most_samples(rate) * 2 + 4,
{
}

/// When more than eight buffers' worth of sound is waiting, all but four is dropped; until
/// then nothing is.
pub proof fn law_backlog(queued: int, needed: int)
    requires
        queued >= 0,
        needed >= 0,
    ensures
        queued > 8 * needed ==> queued - front::dropped(queued, needed) == 4 * needed,
        queued <= 8 * needed ==> front::dropped(queued, needed) == 0,
{
}

} // verus!
