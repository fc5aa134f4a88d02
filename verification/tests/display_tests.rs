use kernel::boot_info::{Color, FrameBuffer, PixelFormat, RGBColor};
use kernel::display::{Display, Terminal};
use kernel::font::{can_look_up, codes_valid, get_char, get_font_bounds, BoundingBox, Char, Font};

const GLYPH_A: [u32; 8] = [0x18, 0x24, 0x42, 0x7E, 0x42, 0x42, 0x42, 0x00];

fn font_with_a() -> Font {
    Font(
        BoundingBox::new(8, 8, 0, 0),
        vec![
            Char::new(0, BoundingBox::new(8, 8, 0, 0), vec![0; 8]),
            Char::new('A' as u32, BoundingBox::new(8, 8, 0, 0), GLYPH_A.to_vec()),
        ],
    )
}

fn framebuffer(format: PixelFormat) -> FrameBuffer {
    FrameBuffer { buffer: vec![[9, 9, 9, 9]; 256], stride: 16, height: 16, width: 16, pixel_format: format }
}

fn pixel(buf: &[[u8; 4]], x: usize, y: usize) -> [u8; 4] {
    buf[y * 16 + x]
}

const WHITE: [u8; 4] = [255, 255, 255, 0];
const BLACK: [u8; 4] = [0, 0, 0, 0];
const RED: [u8; 4] = [255, 0, 0, 0];

#[test]
fn pixel_format_codes() {
    assert_eq!(PixelFormat::from_code(0), Some(PixelFormat::RGB));
    assert_eq!(PixelFormat::from_code(1), Some(PixelFormat::BGR));
    assert_eq!(PixelFormat::from_code(3), Some(PixelFormat::BltOnly));
    assert_eq!(PixelFormat::from_code(4), None);
}

#[test]
fn colors_in_both_byte_orders() {
    let c = RGBColor::new(1, 2, 3);
    assert_eq!(c.get_rgba(), [1, 2, 3, 0]);
    assert_eq!(c.get_bgra(), [3, 2, 1, 0]);
}

#[test]
fn framebuffer_clear_fills_every_pixel() {
    let mut fb = framebuffer(PixelFormat::RGB);
    fb.clear(RGBColor::new(10, 20, 30));
    assert!(fb.buffer.iter().all(|p| *p == [10, 20, 30, 0]));
    let mut fb = framebuffer(PixelFormat::BGR);
    fb.clear(RGBColor::new(10, 20, 30));
    assert!(fb.buffer.iter().all(|p| *p == [30, 20, 10, 0]));
    assert_eq!(fb.buffer.len(), 256);
}

#[test]
fn font_lookup_by_character() {
    let font = font_with_a();
    assert_eq!(get_font_bounds(&font), BoundingBox(8, 8, 0, 0));
    let a = get_char(&font, 'A').unwrap();
    assert_eq!(a.char(), 'A');
    assert_eq!(a.bitmap(), &GLYPH_A.to_vec());
    assert_eq!(a.bounds().width(), 8);
    assert!(get_char(&font, 'B').is_none());
    assert_eq!(get_char(&font, '\0').unwrap().char(), '\0');
}

#[test]
fn bounding_box_accessors() {
    let b = BoundingBox::new(6, 13, -1, -3);
    assert_eq!((b.width(), b.height(), b.x(), b.y()), (6, 13, -1, -3));
}

#[test]
fn display_starts_black_and_keeps_the_framebuffer() {
    let d = Display::init(framebuffer(PixelFormat::RGB), font_with_a());
    assert_eq!(d.count, 0);
    assert_eq!(d.backbuffer.len(), 256);
    assert!(d.backbuffer.iter().all(|p| *p == BLACK));
    assert!(d.framebuffer.buffer.iter().all(|p| *p == [9, 9, 9, 9]));
}

#[test]
fn display_formats_colors_for_its_framebuffer() {
    let d = Display::init(framebuffer(PixelFormat::BGR), font_with_a());
    assert_eq!(d.format_color(RGBColor::new(1, 2, 3)), [3, 2, 1, 0]);
    let d = Display::init(framebuffer(PixelFormat::RGB), font_with_a());
    assert_eq!(d.format_color(RGBColor::new(1, 2, 3)), [1, 2, 3, 0]);
}

#[test]
fn rect_fills_only_the_rectangle() {
    let mut d = Display::init(framebuffer(PixelFormat::RGB), font_with_a());
    d.rect([7, 7, 7, 7], 2, 3, 4, 2);
    for y in 0..16 {
        for x in 0..16 {
            let inside = (2..6).contains(&x) && (3..5).contains(&y);
            assert_eq!(pixel(&d.backbuffer, x, y), if inside { [7, 7, 7, 7] } else { BLACK });
        }
    }
    // Nothing is shown before a flush.
    assert!(d.framebuffer.buffer.iter().all(|p| *p == [9, 9, 9, 9]));
    d.flush();
    assert_eq!(d.framebuffer.buffer, d.backbuffer);
}

#[test]
fn clear_fills_and_shows() {
    let mut d = Display::init(framebuffer(PixelFormat::BGR), font_with_a());
    d.clear(RGBColor::new(1, 2, 3));
    assert!(d.backbuffer.iter().all(|p| *p == [3, 2, 1, 0]));
    assert!(d.framebuffer.buffer.iter().all(|p| *p == [3, 2, 1, 0]));
}

#[test]
fn flush_rows_copies_bytes_from_offset() {
    let mut d = Display::init(framebuffer(PixelFormat::RGB), font_with_a());
    d.rect([5, 5, 5, 5], 0, 0, 16, 16);
    // Rows 0 and 1 start at byte 0: the first 32 pixels are copied.
    d.flush_rows(0, 2);
    for i in 0..256 {
        assert_eq!(d.framebuffer.buffer[i], if i < 32 { [5, 5, 5, 5] } else { [9, 9, 9, 9] });
    }
    // Starting at "row" 4 means byte 64, that is pixel 16, for 16 pixels.
    let mut d = Display::init(framebuffer(PixelFormat::RGB), font_with_a());
    d.rect([5, 5, 5, 5], 0, 0, 16, 16);
    d.flush_rows(4, 1);
    for i in 0..256 {
        assert_eq!(d.framebuffer.buffer[i], if (16..32).contains(&i) { [5, 5, 5, 5] } else { [9, 9, 9, 9] });
    }
}

#[test]
fn debug_dots_are_laid_out_left_to_right() {
    let mut d = Display::init(framebuffer(PixelFormat::RGB), font_with_a());
    d.debug_dot(RGBColor::new(0, 255, 0));
    assert_eq!(d.count, 1);
    assert_eq!(pixel(&d.backbuffer, 0, 0), [0, 255, 0, 0]);
    assert_eq!(pixel(&d.backbuffer, 3, 3), [0, 255, 0, 0]);
    assert_eq!(pixel(&d.backbuffer, 4, 0), BLACK);
    assert_eq!(pixel(&d.framebuffer.buffer, 3, 3), [0, 255, 0, 0]);
    d.debug_dot(RGBColor::new(0, 0, 255));
    assert_eq!(d.count, 2);
    assert_eq!(pixel(&d.backbuffer, 4, 0), [0, 0, 255, 0]);
    assert_eq!(pixel(&d.backbuffer, 7, 3), [0, 0, 255, 0]);
    d.debug_dot(RGBColor::new(0, 0, 255));
    d.debug_dot(RGBColor::new(0, 0, 255));
    // The fifth dot starts a new row of dots.
    d.debug_dot(RGBColor::new(1, 1, 1));
    assert_eq!(pixel(&d.backbuffer, 0, 4), [1, 1, 1, 0]);
}

#[test]
fn draw_char_draws_the_glyph_on_the_background() {
    let mut d = Display::init(framebuffer(PixelFormat::RGB), font_with_a());
    d.rect([7, 7, 7, 7], 0, 0, 16, 16);
    d.draw_char('A', 1, 1, RGBColor::new(255, 255, 255), RGBColor::new(0, 0, 0));
    for l in 0..8 {
        for p in 0..8 {
            let set = (GLYPH_A[l] >> (7 - p)) & 1 == 1;
            assert_eq!(pixel(&d.backbuffer, 8 + p, 8 + l), if set { WHITE } else { BLACK });
        }
    }
    assert_eq!(pixel(&d.backbuffer, 0, 0), [7, 7, 7, 7]);
    assert_eq!(pixel(&d.backbuffer, 7, 8), [7, 7, 7, 7]);
    assert_eq!(d.count, 0);
}

#[test]
fn draw_char_missing_from_font_draws_red_dot() {
    let mut d = Display::init(framebuffer(PixelFormat::RGB), font_with_a());
    d.draw_char('Z', 1, 0, RGBColor::new(255, 255, 255), RGBColor::new(0, 0, 255));
    assert_eq!(d.count, 1);
    assert_eq!(pixel(&d.backbuffer, 0, 0), RED);
    assert_eq!(pixel(&d.backbuffer, 8, 0), [0, 0, 255, 0]);
    assert_eq!(pixel(&d.framebuffer.buffer, 2, 2), RED);
}

#[test]
fn max_cursor_x_is_cells_per_row() {
    let d = Display::init(framebuffer(PixelFormat::RGB), font_with_a());
    assert_eq!(d.max_cursor_x(), 2);
}

#[test]
fn terminal_prints_and_wraps() {
    let mut d = Display::init(framebuffer(PixelFormat::RGB), font_with_a());
    let mut t = Terminal::new();
    assert_eq!(t.cursor, (0, 0));
    t.print_str(&mut d, "AB");
    assert_eq!(t.cursor, (0, 1));
    // 'B' is not in the font: one red debug dot, drawn over the 'A' cell.
    assert_eq!(d.count, 1);
    assert_eq!(pixel(&d.backbuffer, 0, 0), RED);
    assert_eq!(pixel(&d.backbuffer, 4, 0), WHITE);
    assert_eq!(pixel(&d.framebuffer.buffer, 4, 0), WHITE);
    assert_eq!(d.framebuffer.buffer, d.backbuffer);
}

#[test]
fn terminal_control_characters_move_the_cursor() {
    let mut d = Display::init(framebuffer(PixelFormat::RGB), font_with_a());
    let mut t = Terminal::new();
    t.print_char(&mut d, 'A');
    assert_eq!(t.cursor, (1, 0));
    t.print_char(&mut d, '\r');
    assert_eq!(t.cursor, (0, 0));
    t.print_char(&mut d, '\n');
    assert_eq!(t.cursor, (0, 1));
    t.print_char(&mut d, '\x0C');
    assert_eq!(t.cursor, (0, 0));
    t.print_char(&mut d, '\t');
    assert_eq!(t.cursor, (0, 1));
    t.print_char(&mut d, 'A');
    assert_eq!(t.cursor, (1, 1));
    t.print_char(&mut d, '\x08');
    assert_eq!(t.cursor, (0, 1));
    // Backspace draws the null glyph: the cell is black again.
    assert_eq!(pixel(&d.backbuffer, 3, 8), BLACK);
    t.print_char(&mut d, '\x08');
    assert_eq!(t.cursor, (0, 1));
    assert_eq!(d.count, 0);
}

#[test]
fn font_codes_must_be_characters() {
    assert!(codes_valid(&font_with_a()));
    let bad = Font(BoundingBox::new(8, 8, 0, 0), vec![Char::new(0xD800, BoundingBox::new(8, 8, 0, 0), vec![])]);
    assert!(!codes_valid(&bad));
    let too_big = Font(BoundingBox::new(8, 8, 0, 0), vec![Char::new(0x11_0000, BoundingBox::new(8, 8, 0, 0), vec![])]);
    assert!(!codes_valid(&too_big));
    assert!(codes_valid(&Font(BoundingBox::new(8, 8, 0, 0), vec![])));
}

#[test]
fn drawing_checks_stay_on_screen() {
    let mut d = Display::init(framebuffer(PixelFormat::RGB), font_with_a());
    assert!(d.can_draw_char('A', 0, 0));
    assert!(d.can_draw_char('A', 1, 1));
    // Bounds are checked on the pixel position in the buffer: a cell right
    // of the screen runs into the next rows, which is allowed while it stays
    // within the screen's pixels.
    assert!(d.can_draw_char('A', 2, 0));
    assert!(!d.can_draw_char('A', 3, 1));
    assert!(!d.can_draw_char('A', 0, 2));
    // A missing character needs room for a debug dot.
    assert!(d.can_draw_char('Z', 1, 1));
    assert!(d.can_debug_dot());
    for _ in 0..16 {
        d.debug_dot(RGBColor::new(1, 2, 3));
    }
    // Sixteen dots fill the four rows of dots of a 16 by 16 screen.
    assert!(!d.can_debug_dot());
    assert!(!d.can_draw_char('Z', 0, 0));
    assert!(d.can_draw_char('A', 0, 0));
}

#[test]
fn terminal_checks_before_printing() {
    let d = Display::init(framebuffer(PixelFormat::RGB), font_with_a());
    let mut t = Terminal::new();
    assert!(t.can_print_char(&d, 'A'));
    assert!(t.can_print_char(&d, '\x08'));
    t.cursor = (0, 2);
    assert!(!t.can_print_char(&d, 'A'));
    assert!(t.can_print_char(&d, '\n'));
    assert!(t.can_print_char(&d, '\r'));
    t.cursor = (usize::MAX, 0);
    assert!(!t.can_print_char(&d, '\t'));
}

fn wide_framebuffer() -> FrameBuffer {
    FrameBuffer { buffer: vec![[9, 9, 9, 9]; 512], stride: 32, height: 16, width: 32, pixel_format: PixelFormat::RGB }
}

#[test]
fn printing_in_two_strings_equals_printing_their_concatenation() {
    let mut d1 = Display::init(wide_framebuffer(), font_with_a());
    let mut t1 = Terminal::new();
    t1.print_str(&mut d1, "AA");
    t1.print_str(&mut d1, "\nAA");
    let mut d2 = Display::init(wide_framebuffer(), font_with_a());
    let mut t2 = Terminal::new();
    t2.print_str(&mut d2, "AA\nAA");
    assert_eq!(t1.cursor, (2, 1));
    assert_eq!(t1.cursor, t2.cursor);
    assert_eq!(d1.backbuffer, d2.backbuffer);
    assert_eq!(d1.framebuffer.buffer, d2.framebuffer.buffer);
    assert_eq!(d1.count, d2.count);
}

#[test]
fn clear_fills_only_the_visible_pixels() {
    let fb = FrameBuffer { buffer: vec![[9, 9, 9, 9]; 256], stride: 16, height: 16, width: 12, pixel_format: PixelFormat::RGB };
    let mut d = Display::init(fb, font_with_a());
    d.clear(RGBColor::new(1, 2, 3));
    for i in 0..256 {
        let expected = if i < 12 * 16 { [1, 2, 3, 0] } else { BLACK };
        assert_eq!(d.backbuffer[i], expected);
        assert_eq!(d.framebuffer.buffer[i], expected);
    }
}

fn font_with_bad_glyph() -> Font {
    Font(
        BoundingBox::new(8, 8, 0, 0),
        vec![
            Char::new('A' as u32, BoundingBox::new(8, 8, 0, 0), GLYPH_A.to_vec()),
            Char::new(0xD800, BoundingBox::new(8, 8, 0, 0), vec![0; 8]),
            Char::new(0, BoundingBox::new(8, 8, 0, 0), vec![0; 8]),
        ],
    )
}

#[test]
fn lookup_stops_at_the_first_matching_glyph() {
    let font = font_with_bad_glyph();
    assert!(!codes_valid(&font));
    assert!(can_look_up(&font, 'A'));
    assert_eq!(get_char(&font, 'A').unwrap().char(), 'A');
    // Looking up anything else meets the glyph without a character code.
    assert!(!can_look_up(&font, '\0'));
    assert!(!can_look_up(&font, 'B'));
}

#[test]
fn display_with_a_bad_glyph_draws_what_it_can_look_up() {
    let mut d = Display::init(framebuffer(PixelFormat::RGB), font_with_bad_glyph());
    assert!(d.can_draw_char('A', 0, 0));
    assert!(!d.can_draw_char('B', 0, 0));
    d.draw_char('A', 0, 0, RGBColor::new(255, 255, 255), RGBColor::new(0, 0, 0));
    assert_eq!(pixel(&d.backbuffer, 3, 0), WHITE);
    let t = Terminal::new();
    assert!(t.can_print_char(&d, 'A'));
    assert!(!t.can_print_char(&d, 'Z'));
}
