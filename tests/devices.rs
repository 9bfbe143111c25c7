use chip8::display::{Display, DrawResult};
use chip8::keypad::{KeyState, Keypad};
use chip8::ram::RAM;

#[test]
fn ram_round_trips() {
    let mut r = RAM::new();
    r.write8(10, 0xAA);
    assert_eq!(r.read8(10), 0xAA);
    r.write16(20, 0xBEEF);
    assert_eq!(r.read8(20), 0xBE);
    assert_eq!(r.read8(21), 0xEF);
    assert_eq!(r.read16(20), 0xBEEF);
    r.write(4093, &[1, 2, 3]);
    let mut buf = [0u8; 3];
    r.read(4093, &mut buf);
    assert_eq!(buf, [1, 2, 3]);
    r.reset();
    assert_eq!(r.read8(4095), 0);
    assert_eq!(r.read8(10), 0);
}

#[test]
fn pixel_wraps() {
    let mut d = Display::new();
    d.set_pixel(64, 0, true);
    assert!(d.is_pixel_set(0, 0));
    d.set_pixel(3, 35, true);
    assert!(d.is_pixel_set(3, 3));
    assert!(d.is_pixel_set(67, 99));
    d.clear();
    assert!(!d.is_pixel_set(0, 0));
}

#[test]
fn draw_wraps_at_edges() {
    let mut d = Display::new();
    assert_eq!(d.draw(62, 31, &[0xFF, 0x81]), DrawResult::NoOverwrite);
    assert!(d.is_pixel_set(62, 31));
    assert!(d.is_pixel_set(63, 31));
    assert!(d.is_pixel_set(0, 31));
    assert!(d.is_pixel_set(5, 31));
    assert!(!d.is_pixel_set(6, 31));
    assert!(d.is_pixel_set(62, 0));
    assert!(!d.is_pixel_set(63, 0));
    assert!(d.is_pixel_set(5, 0));
}

#[test]
fn draw_same_origin_as_wrapped() {
    let mut a = Display::new();
    let mut b = Display::new();
    assert_eq!(a.draw(0, 0, &[0xA5]), DrawResult::NoOverwrite);
    assert_eq!(b.draw(64, 32, &[0xA5]), DrawResult::NoOverwrite);
    for x in 0..64 {
        assert_eq!(a.is_pixel_set(x, 0), b.is_pixel_set(x, 0));
    }
}

#[test]
fn draw_twice_restores() {
    let mut d = Display::new();
    d.set_pixel(10, 10, true);
    d.set_pixel(40, 2, true);
    assert_eq!(d.draw(8, 9, &[0x3C, 0x42, 0x81]), DrawResult::Overwrite);
    assert_eq!(d.draw(8, 9, &[0x3C, 0x42, 0x81]), DrawResult::Overwrite);
    for x in 0..64 {
        for y in 0..32 {
            let expected = (x == 10 && y == 10) || (x == 40 && y == 2);
            assert_eq!(d.is_pixel_set(x, y), expected);
        }
    }
}

#[test]
fn collision_counts_cells_under_sprite() {
    let mut d = Display::new();
    d.set_pixel(7, 0, true);
    // the sprite bit at column 7 is clear, yet the cell under it was set
    assert_eq!(d.draw(0, 0, &[0x80]), DrawResult::Overwrite);
    assert!(d.is_pixel_set(7, 0));
    assert!(d.is_pixel_set(0, 0));
    d.reset();
    assert_eq!(d.draw(0, 0, &[]), DrawResult::NoOverwrite);
}

#[test]
fn keypad_latches() {
    let mut k = Keypad::new();
    assert!(k.is_key_up(3));
    k.set_key_down(3);
    assert!(k.is_key_down(3));
    assert!(!k.is_key_up(3));
    k.set_key_up(3);
    assert!(k.is_key_up(3));
    k.set_key_down(15);
    k.reset();
    assert!(k.is_key_up(15));
    let mut s = KeyState::Up;
    s.set_key_down();
    assert!(s.is_key_down());
    s.set_key_up();
    assert!(s.is_key_up());
    assert_eq!(k.keys[0], KeyState::Up);
}
