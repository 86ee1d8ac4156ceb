use chip8::bus::Bus;
use chip8::display::Display;
use chip8::display::DISPLAY_HEIGHT;
use chip8::display::DISPLAY_SIZE;
use chip8::display::DISPLAY_WIDTH;
use chip8::memory::Memory;

fn cell(x: usize, y: usize) -> usize {
    x + y * DISPLAY_WIDTH
}

#[test]
fn memory_read_back() {
    let mut m = Memory::new();
    assert_eq!(m.read_byte(0x000), 0);
    assert_eq!(m.read_byte(0xfff), 0);
    m.write_byte(0x123, &0xab);
    assert_eq!(m.read_byte(0x123), 0xab);
    assert_eq!(m.read_byte(0x124), 0);
}

#[test]
fn display_toggle_and_clear() {
    let mut d = Display::new();
    assert!(!d.get_pixel(0));
    d.set_pixel(77);
    assert!(d.get_pixel(77));
    d.set_pixel(77);
    assert!(!d.get_pixel(77));
    d.set_pixel(77);
    d.clear();
    assert!(!d.get_pixel(77));
    assert_eq!(d.get_buffer().len(), DISPLAY_SIZE);
}

#[test]
fn draw_single_bit_toggles_one_cell() {
    // One-row sprite with only bit at column 3 set: exactly
    // ((x + 3) mod 64, y mod 32) is toggled.
    let mut bus = Bus::new();
    bus.write_mem_byte(0x300, 0x80 >> 3);
    let collided = bus.draw_sprite(5, 7, 1, 0x300);
    assert!(!collided);
    let buf = bus.get_display_buffer();
    for k in 0..DISPLAY_SIZE {
        assert_eq!(buf[k], k == cell(8, 7));
    }
}

#[test]
fn draw_single_bit_wraps_both_axes() {
    let mut bus = Bus::new();
    bus.write_mem_byte(0x300, 0x80 >> 7);
    let collided = bus.draw_sprite(60, 40, 1, 0x300);
    assert!(!collided);
    let buf = bus.get_display_buffer();
    for k in 0..DISPLAY_SIZE {
        assert_eq!(buf[k], k == cell((60 + 7) % DISPLAY_WIDTH, 40 % DISPLAY_HEIGHT));
    }
}

#[test]
fn draw_twice_restores_display() {
    // XOR idempotence: the same sprite at the same location erases
    // itself, and the second draw reports the collision.
    let mut bus = Bus::new();
    bus.write_mem_byte(0x300, 0xff);
    bus.write_mem_byte(0x301, 0x3c);
    let first = bus.draw_sprite(10, 5, 2, 0x300);
    assert!(!first);
    let second = bus.draw_sprite(10, 5, 2, 0x300);
    assert!(second);
    let buf = bus.get_display_buffer();
    for k in 0..DISPLAY_SIZE {
        assert!(!buf[k]);
    }
}

#[test]
fn draw_row_wraps_at_right_edge() {
    // An 8-bit-wide row drawn at x = 63 touches columns
    // 63, 0, 1, 2, 3, 4, 5, 6.
    let mut bus = Bus::new();
    bus.write_mem_byte(0x300, 0xff);
    let collided = bus.draw_sprite(63, 0, 1, 0x300);
    assert!(!collided);
    let buf = bus.get_display_buffer();
    let touched = [63, 0, 1, 2, 3, 4, 5, 6];
    for k in 0..DISPLAY_SIZE {
        assert_eq!(buf[k], touched.contains(&(k % DISPLAY_WIDTH)) && k / DISPLAY_WIDTH == 0);
    }
}

#[test]
fn draw_overlap_collides_and_erases() {
    let mut bus = Bus::new();
    bus.write_mem_byte(0x300, 0xf0);
    bus.write_mem_byte(0x301, 0x30);
    let first = bus.draw_sprite(0, 0, 1, 0x300);
    assert!(!first);
    // Second sprite shares columns 2 and 3 of row 0.
    let second = bus.draw_sprite(0, 0, 1, 0x301);
    assert!(second);
    let buf = bus.get_display_buffer();
    assert!(buf[cell(0, 0)]);
    assert!(buf[cell(1, 0)]);
    assert!(!buf[cell(2, 0)]);
    assert!(!buf[cell(3, 0)]);
}

#[test]
fn draw_zero_rows_is_a_no_op() {
    let mut bus = Bus::new();
    bus.write_mem_byte(0x300, 0xff);
    let collided = bus.draw_sprite(0, 0, 0, 0x300);
    assert!(!collided);
    let buf = bus.get_display_buffer();
    for k in 0..DISPLAY_SIZE {
        assert!(!buf[k]);
    }
}

#[test]
fn bus_clear_display_unsets_everything() {
    let mut bus = Bus::new();
    bus.write_mem_byte(0x300, 0xff);
    bus.draw_sprite(3, 3, 1, 0x300);
    bus.clear_display();
    let buf = bus.get_display_buffer();
    for k in 0..DISPLAY_SIZE {
        assert!(!buf[k]);
    }
    // Memory is untouched by the display clear.
    assert_eq!(bus.read_mem_byte(0x300), 0xff);
}
