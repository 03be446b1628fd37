use rustos::vga_buffer::{Color, ColorCode, ScreenChar, Writer, BUFFER_HEIGHT, BUFFER_WIDTH};

fn writer() -> Writer {
    Writer::new(ColorCode::new(Color::LightBlue, Color::Black))
}

fn row_text(w: &Writer, row: usize) -> Vec<u8> {
    (0..BUFFER_WIDTH).map(|c| w.char_at(row, c).ascii_character).collect()
}

#[test]
fn color_code_packs_background_high() {
    assert_eq!(ColorCode::new(Color::LightBlue, Color::Black).0, 0x09);
    assert_eq!(ColorCode::new(Color::White, Color::Blue).0, 0x1f);
    assert_eq!(ColorCode::new(Color::Black, Color::White).0, 0xf0);
    assert_eq!(Color::Yellow.value(), 14);
}

#[test]
fn println_output_lands_on_second_to_last_row() {
    let mut w = writer();
    let s = "Some test string";
    w.write_string("\n");
    w.write_string(s);
    w.write_string("\n");
    for (i, c) in s.chars().enumerate() {
        let sc = w.char_at(BUFFER_HEIGHT - 2, i);
        assert_eq!(char::from(sc.ascii_character), c);
        assert_eq!(sc.color_code, ColorCode(0x09));
    }
    assert_eq!(w.column_position(), 0);
}

#[test]
fn write_byte_advances_and_wraps() {
    let mut w = writer();
    w.write_byte(b'x');
    assert_eq!(w.column_position(), 1);
    assert_eq!(w.char_at(BUFFER_HEIGHT - 1, 0), ScreenChar { ascii_character: b'x', color_code: ColorCode(0x09) });
    for _ in 0..79 {
        w.write_byte(b'y');
    }
    assert_eq!(w.column_position(), 80);
    w.write_byte(b'z');
    assert_eq!(w.column_position(), 1);
    assert_eq!(w.char_at(BUFFER_HEIGHT - 2, 0).ascii_character, b'x');
    assert_eq!(w.char_at(BUFFER_HEIGHT - 2, 79).ascii_character, b'y');
    assert_eq!(w.char_at(BUFFER_HEIGHT - 1, 0).ascii_character, b'z');
    assert_eq!(w.char_at(BUFFER_HEIGHT - 1, 1).ascii_character, b' ');
}

#[test]
fn unprintable_bytes_show_as_square() {
    let mut w = writer();
    w.write_string("a\u{e9}b\t");
    let row = row_text(&w, BUFFER_HEIGHT - 1);
    assert_eq!(&row[..5], &[b'a', 0xfe, 0xfe, b'b', 0xfe]);
}

#[test]
fn many_lines_scroll_off_the_top() {
    let mut w = writer();
    for i in 0..200u32 {
        w.write_string(&format!("line {}\n", i));
    }
    let top = row_text(&w, 0);
    assert_eq!(&top[..8], b"line 176");
    let last = row_text(&w, BUFFER_HEIGHT - 2);
    assert_eq!(&last[..8], b"line 199");
    assert!(row_text(&w, BUFFER_HEIGHT - 1).iter().all(|&b| b == b' '));
}
