//! Keys, the picture's place in the window, pacing and reports.

use gbtoexe::front::{
    backlog, bound, button_for, distinct_colours, frames_per_buffer, place, ppm, Clock, Frame,
    Keyboard, Pause, VK_ESCAPE, VK_TAB,
};
use gbtoexe::hw::Button;

#[test]
fn keys_drive_their_buttons() {
    let mut keyboard = Keyboard::new();
    keyboard.key(0x58, true); // X
    keyboard.key(0x27, true); // Right
    assert_eq!(
        keyboard.buttons(),
        [true, false, false, false, true, false, false, false]
    );
    keyboard.key(0x53, false); // S drives A too
    assert_eq!(keyboard.buttons()[4], false);
    keyboard.key(0x70, true);
    assert_eq!(keyboard.buttons()[0], true);
    assert_eq!(bound(0x70), None);
}

#[test]
fn buttons_come_in_the_order_of_their_keys() {
    assert_eq!(button_for(0), Button::Right);
    assert_eq!(button_for(4), Button::A);
    assert_eq!(button_for(7), Button::Start);
    for (vk, button) in [(0x25, Button::Left), (0x20, Button::Start), (0x10, Button::Select)] {
        assert_eq!(bound(vk).map(button_for), Some(button));
    }
}

#[test]
fn tab_is_turbo_and_escape_quits() {
    let mut keyboard = Keyboard::new();
    keyboard.key(VK_TAB, true);
    assert!(keyboard.turbo());
    keyboard.key(VK_TAB, false);
    assert!(!keyboard.turbo());
    keyboard.key(VK_ESCAPE, false);
    assert!(!keyboard.quits());
    keyboard.key(VK_ESCAPE, true);
    assert!(keyboard.quits());

    let mut closed = Keyboard::new();
    closed.close();
    assert!(closed.quits());
}

#[test]
fn the_picture_is_centred_at_a_whole_multiple() {
    assert_eq!(place(1000, 700, true), Frame { x: 180, y: 62, w: 640, h: 576 });
    assert_eq!(place(1000, 700, false), Frame { x: 0, y: 0, w: 1000, h: 700 });
    assert_eq!(place(160, 144, true), Frame { x: 0, y: 0, w: 160, h: 144 });
    // A window smaller than the screen shows its middle.
    assert_eq!(place(101, 100, true), Frame { x: -29, y: -22, w: 160, h: 144 });
    assert_eq!(place(0, 50, true), Frame { x: 0, y: 0, w: 0, h: 50 });
}

#[test]
fn frames_come_due_a_period_apart() {
    let mut clock = Clock::new(1000, 50);
    assert!(clock.advance(16, 55));
    assert_eq!(clock.next_frame, 66);
    assert_eq!(clock.pause(55), Pause::Sleep(10));
    assert_eq!(clock.pause(64), Pause::Spin);
    assert_eq!(clock.pause(66), Pause::Over);
    // A little late is caught up with.
    assert!(clock.advance(16, 146));
    assert_eq!(clock.next_frame, 82);
    // Further behind, the count starts over.
    assert!(!clock.advance(16, 163));
    assert_eq!(clock.next_frame, 163);
    clock.resync(500);
    assert_eq!(clock.next_frame, 500);
    assert_eq!(Clock::new(0, 1).frequency, 1);
}

#[test]
fn sound_buffers_hold_a_fiftieth_of_a_second() {
    assert_eq!(frames_per_buffer(48_000), 960);
    assert_eq!(frames_per_buffer(8_000), 256);
    assert_eq!(backlog(800, 100), 0);
    assert_eq!(backlog(801, 100), 401);
}

#[test]
fn colours_are_counted_once() {
    assert_eq!(distinct_colours(&[]), 0);
    assert_eq!(distinct_colours(&[7; 100]), 1);
    assert_eq!(distinct_colours(&[1, 2, 1, 3, 2]), 3);
}

#[test]
fn a_frame_becomes_a_pixmap() {
    let file = ppm(&[0x0102_0304, 0xffaabbcc]);
    assert_eq!(file, b"P6\n160 144\n255\n\x02\x03\x04\xaa\xbb\xcc");
}
