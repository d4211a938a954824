use crucifix::color::{Color, ColorCode};
use crucifix::vga_buffer::{
    Buffer, ScreenChar, Writer, BACKSPACE, BUFFER_HEIGHT, BUFFER_WIDTH, GREET, NEWLINE,
    PLACEHOLDER, TABULATION,
};

fn attr() -> ColorCode {
    ColorCode::new(Color::LightRed, Color::Black)
}

fn blank() -> ScreenChar {
    ScreenChar { ascii_character: b' ', color_code: attr() }
}

fn fresh() -> Writer {
    Writer::new(attr(), Buffer::new(blank()))
}

fn cell(w: &Writer, row: usize, col: usize) -> u8 {
    w.read(row, col).ascii_character
}

fn active() -> usize {
    BUFFER_HEIGHT - 1
}

#[test]
fn color_codes_match_the_palette() {
    assert_eq!(Color::Black.as_u8(), 0);
    assert_eq!(Color::LightGray.as_u8(), 7);
    assert_eq!(Color::LightRed.as_u8(), 12);
    assert_eq!(Color::White.as_u8(), 15);
}

#[test]
fn attribute_packs_background_high() {
    assert_eq!(ColorCode::new(Color::LightRed, Color::Black).byte(), 0x0C);
    assert_eq!(ColorCode::new(Color::White, Color::Blue).byte(), 0x1F);
    assert_eq!(ColorCode::new(Color::Yellow, Color::White).byte(), 0xFE);
}

#[test]
fn blinking_sets_the_top_bit() {
    let mut c = ColorCode::new(Color::LightRed, Color::Black);
    assert_eq!(c.blinking().byte(), 0x8C);
    assert_eq!(c.byte(), 0x0C);
    let mut d = ColorCode::new(Color::White, Color::Pink);
    assert_eq!(d.blinking().byte(), 0xDF);
}

#[test]
fn buffer_reads_back_what_was_stored() {
    let mut b = Buffer::new(blank());
    assert_eq!(b.read(0, 0), blank());
    assert_eq!(b.read(24, 79), blank());
    let x = ScreenChar { ascii_character: b'x', color_code: ColorCode(0x1F) };
    b.write(7, 33, x);
    assert_eq!(b.read(7, 33), x);
    assert_eq!(b.read(7, 32), blank());
    assert_eq!(b.read(7, 34), blank());
}

#[test]
fn printable_byte_lands_at_the_column() {
    for byte in 0x20u8..=0x7e {
        let mut w = fresh();
        w.write_byte(b'a');
        let col = w.column_position();
        w.write_byte(byte);
        assert_eq!(w.read(active(), col), ScreenChar { ascii_character: byte, color_code: attr() });
        assert_eq!(w.column_position(), col + 1);
    }
}

#[test]
fn cursor_follows_the_last_character() {
    let mut w = fresh();
    w.write_byte(b'a');
    let mut blink = attr();
    let mark = ScreenChar { ascii_character: b' ', color_code: blink.blinking() };
    assert_eq!(w.read(active(), 1), mark);
    assert_eq!(w.read(active(), 1).color_code.byte(), 0x8C);
}

#[test]
fn eighty_characters_fill_the_line_without_scroll() {
    let mut w = fresh();
    let line: Vec<u8> = (0..80u8).map(|i| b'A' + (i % 26)).collect();
    for &b in &line {
        w.write_byte(b);
    }
    assert_eq!(w.column_position(), BUFFER_WIDTH);
    for col in 0..BUFFER_WIDTH {
        assert_eq!(cell(&w, active(), col), line[col]);
        assert_eq!(cell(&w, active() - 1, col), b' ');
    }
    w.write_byte(b'z');
    for col in 0..BUFFER_WIDTH {
        assert_eq!(cell(&w, active() - 1, col), line[col]);
        assert_eq!(cell(&w, active() - 2, col), b' ');
    }
    assert_eq!(cell(&w, active(), 0), b'@');
    assert_eq!(cell(&w, active(), 1), b'>');
    assert_eq!(cell(&w, active(), 2), b' ');
    assert_eq!(cell(&w, active(), 3), b'z');
    assert_eq!(w.column_position(), GREET.len() + 1);
}

#[test]
fn backspace_stops_at_the_prompt() {
    let mut w = fresh();
    w.write_byte(NEWLINE);
    w.write_string("hello");
    assert_eq!(w.column_position(), GREET.len() + 5);
    for _ in 0..100 {
        w.write_byte(BACKSPACE);
        assert!(w.column_position() >= GREET.len());
    }
    assert_eq!(w.column_position(), GREET.len());
    assert_eq!(cell(&w, active(), 0), b'@');
    assert_eq!(cell(&w, active(), 1), b'>');
    for col in GREET.len()..10 {
        assert_eq!(cell(&w, active(), col), b' ');
    }
}

#[test]
fn backspace_erases_one_character() {
    let mut w = fresh();
    w.write_byte(NEWLINE);
    w.write_string("ab");
    w.write_byte(BACKSPACE);
    assert_eq!(w.column_position(), GREET.len() + 1);
    assert_eq!(cell(&w, active(), GREET.len()), b'a');
    assert_eq!(w.read(active(), GREET.len() + 1).color_code.byte(), 0x8C);
}

#[test]
fn backspace_on_a_full_line() {
    let mut w = fresh();
    for _ in 0..BUFFER_WIDTH {
        w.write_byte(b'q');
    }
    w.write_byte(BACKSPACE);
    assert_eq!(w.column_position(), BUFFER_WIDTH - 1);
    assert_eq!(cell(&w, active(), BUFFER_WIDTH - 2), b'q');
    assert_eq!(w.read(active(), BUFFER_WIDTH - 1).color_code.byte(), 0x8C);
}

#[test]
fn scroll_moves_rows_up_by_one() {
    let mut w = fresh();
    for row in 0..30u8 {
        w.write_byte(b'a' + (row % 26));
        w.write_byte(NEWLINE);
    }
    let before: Vec<Vec<u8>> =
        (0..BUFFER_HEIGHT).map(|r| (0..BUFFER_WIDTH).map(|c| cell(&w, r, c)).collect()).collect();
    w.write_byte(NEWLINE);
    for r in 1..=23 {
        for c in 0..BUFFER_WIDTH {
            assert_eq!(cell(&w, r - 1, c), before[r][c]);
        }
    }
    assert_eq!(cell(&w, active(), 0), b'@');
    assert_eq!(w.column_position(), GREET.len());
}

#[test]
fn unprintable_bytes_become_the_placeholder() {
    for byte in [0x00u8, 0x01, 0x07, 0x0B, 0x0D, 0x1B, 0x1F, 0x7F] {
        let mut w = fresh();
        w.write_string(&char::from(byte).to_string());
        assert_eq!(cell(&w, active(), 0), PLACEHOLDER);
        assert_ne!(cell(&w, active(), 0), byte);
        assert_eq!(w.column_position(), 1);
    }
    let mut w = fresh();
    w.write_string("é\u{1}!");
    assert_eq!(cell(&w, active(), 0), PLACEHOLDER);
    assert_eq!(cell(&w, active(), 1), PLACEHOLDER);
    assert_eq!(cell(&w, active(), 2), PLACEHOLDER);
    assert_eq!(cell(&w, active(), 3), b'!');
    assert_eq!(w.column_position(), 4);
}

#[test]
fn tab_writes_two_spaces() {
    let mut w = fresh();
    w.write_byte(b'a');
    w.write_byte(TABULATION);
    w.write_byte(b'b');
    assert_eq!(cell(&w, active(), 0), b'a');
    assert_eq!(cell(&w, active(), 1), b' ');
    assert_eq!(cell(&w, active(), 2), b' ');
    assert_eq!(cell(&w, active(), 3), b'b');
    assert_eq!(w.column_position(), 4);
}

#[test]
fn newline_writes_the_prompt() {
    let mut w = fresh();
    w.write_string("x\n");
    assert_eq!(cell(&w, active() - 1, 0), b'x');
    assert_eq!(w.read(active() - 1, 1), blank());
    for (i, c) in GREET.bytes().enumerate() {
        assert_eq!(cell(&w, active(), i), c);
    }
    assert_eq!(w.column_position(), GREET.len());
}

#[test]
fn test_println_simple() {
    let mut w = fresh();
    w.write_string("test_println_simple output\n");
    assert_eq!(cell(&w, active() - 1, GREET.len()), b't');
}

#[test]
fn test_println_many() {
    let mut w = fresh();
    for _ in 0..200 {
        w.write_string("test_println_many output\n");
    }
    assert_eq!(cell(&w, active() - 1, GREET.len()), b't');
    assert_eq!(cell(&w, 0, GREET.len()), b't');
}

#[test]
fn test_println_output() {
    let s = "Some test string that fits on a single line";
    let mut w = fresh();
    w.write_string("\n");
    w.write_string(s);
    w.write_string("\n");
    for (i, c) in s.chars().enumerate() {
        let screen_char = w.read(BUFFER_HEIGHT - 2, GREET.len() + i);
        assert_eq!(char::from(screen_char.ascii_character), c);
    }
    for (i, c) in GREET.bytes().enumerate() {
        assert_eq!(cell(&w, BUFFER_HEIGHT - 2, i), c);
    }
}

#[test]
fn trivial_assertion() {
    assert_eq!(1, 1);
}
