use vga_console::{Alignment, AsciiChar, Color, Screen};

fn cells(screen: &Screen) -> Vec<(u8, u8)> {
    (0..2000u32)
        .map(|i| {
            let cell = screen.read_char(i);
            (cell.char_byte, cell.color_byte)
        })
        .collect()
}

fn row_of(bytes: &[u8]) -> [u8; 80] {
    let mut row = [0u8; 80];
    row[..bytes.len()].copy_from_slice(bytes);
    row
}

#[test]
fn left_alignment_has_no_padding() {
    let screen = Screen::new(0x7, Alignment::Left);
    assert_eq!(screen.calc_align(&row_of(b"abcd")), 0);
    assert_eq!(screen.calc_align(&row_of(b"")), 0);
    assert_eq!(screen.calc_align(&[b'x'; 80]), 0);
    assert_eq!(screen.calc_align(&[b'x'; 200]), 0);
}

#[test]
fn right_alignment_pads_to_the_width() {
    let screen = Screen::new(0x7, Alignment::Right);
    assert_eq!(screen.calc_align(&row_of(b"abcd")), 76);
    assert_eq!(screen.calc_align(&row_of(b"abcde")), 75);
    assert_eq!(screen.calc_align(&row_of(b"")), 80);
    assert_eq!(screen.calc_align(&[b'x'; 79]), 1);
    assert_eq!(screen.calc_align(&[b'x'; 80]), 0);
}

#[test]
fn center_alignment_halves_the_rest_and_rounds_down() {
    let screen = Screen::new(0x7, Alignment::Center);
    assert_eq!(screen.calc_align(&row_of(b"abcd")), 38);
    assert_eq!(screen.calc_align(&row_of(b"abcde")), 37);
    assert_eq!(screen.calc_align(&row_of(b"5")), 39);
    assert_eq!(screen.calc_align(&row_of(b"")), 40);
    assert_eq!(screen.calc_align(&[b'x'; 79]), 0);
    assert_eq!(screen.calc_align(&[b'x'; 80]), 0);
}

#[test]
fn alignment_counts_up_to_the_first_nul() {
    let screen = Screen::new(0x7, Alignment::Right);
    assert_eq!(screen.calc_align(b"ab\0cd"), 78);
    assert_eq!(screen.calc_align(b"\0abcd"), 80);
    assert_eq!(screen.calc_align(b"abc"), 77);
    assert_eq!(screen.calc_align(b""), 80);
}

#[test]
fn write_then_read_gives_the_cell_back() {
    let mut screen = Screen::new(0x7, Alignment::Left);
    screen.write_char(5, AsciiChar { char_byte: b'q', color_byte: 0x1f });
    screen.write_char(1999, AsciiChar { char_byte: b'z', color_byte: 0x2e });
    assert_eq!(screen.read_char(5), AsciiChar { char_byte: b'q', color_byte: 0x1f });
    assert_eq!(screen.read_char(1999), AsciiChar { char_byte: b'z', color_byte: 0x2e });
    assert_eq!(screen.read_char(4), AsciiChar { char_byte: 0, color_byte: 0 });
    assert_eq!(screen.read_char(6), AsciiChar { char_byte: 0, color_byte: 0 });
    assert_eq!(screen.cursor(), (0, 0));
}

#[test]
fn centered_digit_end_to_end() {
    let color = Color::LIGHT_GREEN.code();
    let mut screen = Screen::new(color, Alignment::Center);
    screen.print("5");
    for i in 0..39 {
        assert_eq!(screen.read_char(i), AsciiChar { char_byte: b' ', color_byte: 0x0a });
    }
    assert_eq!(screen.read_char(39), AsciiChar { char_byte: b'5', color_byte: 0x0a });
    for i in 40..80 {
        assert_eq!(screen.read_char(i), AsciiChar { char_byte: 0, color_byte: 0 });
    }
    for i in 80..120 {
        assert_eq!(screen.read_char(i), AsciiChar { char_byte: b' ', color_byte: 0x0a });
    }
    assert_eq!(screen.read_char(120), AsciiChar { char_byte: 0, color_byte: 0 });
}

#[test]
fn left_rows_start_at_display_rows() {
    let mut screen = Screen::new(0x4, Alignment::Left);
    screen.print("ab\ncd\n\nef");
    let after = cells(&screen);
    assert_eq!(&after[0..3], &[(b'a', 4), (b'b', 4), (0, 0)]);
    assert_eq!(&after[80..83], &[(b'c', 4), (b'd', 4), (0, 0)]);
    assert_eq!(after[160], (0, 0));
    assert_eq!(&after[240..243], &[(b'e', 4), (b'f', 4), (0, 0)]);
    let drawn = after.iter().filter(|c| **c != (0, 0)).count();
    assert_eq!(drawn, 6);
}

#[test]
fn drawing_twice_changes_nothing() {
    let mut screen = Screen::new(0x3, Alignment::Center);
    screen.print("first line\nsecond\n\nfourth");
    let once = cells(&screen);
    screen.render();
    let twice = cells(&screen);
    assert_eq!(once, twice);
    screen.render();
    assert_eq!(cells(&screen), once);
}

#[test]
fn cells_that_are_not_drawn_keep_what_they_hold() {
    let mut screen = Screen::new(0x7, Alignment::Left);
    screen.write_char(50, AsciiChar { char_byte: b'#', color_byte: 0x70 });
    screen.write_char(1, AsciiChar { char_byte: b'#', color_byte: 0x70 });
    screen.print("ab");
    assert_eq!(screen.read_char(0), AsciiChar { char_byte: b'a', color_byte: 0x07 });
    assert_eq!(screen.read_char(1), AsciiChar { char_byte: b'b', color_byte: 0x07 });
    assert_eq!(screen.read_char(50), AsciiChar { char_byte: b'#', color_byte: 0x70 });
}

#[test]
fn shorter_content_leaves_the_old_tail_on_the_display() {
    let mut screen = Screen::new(0x7, Alignment::Left);
    for _ in 0..24 {
        screen.print("long line\n");
    }
    screen.print("x\n");
    assert_eq!(screen.read_char(22 * 80).char_byte, b'x');
    assert_eq!(screen.read_char(22 * 80 + 1).char_byte, b'o');
    assert_eq!(screen.read_char(22 * 80 + 8).char_byte, b'e');
}

#[test]
fn blank_row_is_drawn_as_spaces() {
    let mut screen = Screen::new(0x7, Alignment::Left);
    for _ in 0..24 {
        screen.print("\n");
    }
    assert_eq!(screen.grid_row(24), [b' '; 80]);
    for i in 1920..2000 {
        assert_eq!(screen.read_char(i), AsciiChar { char_byte: b' ', color_byte: 0x07 });
    }
    assert_eq!(screen.read_char(1919), AsciiChar { char_byte: 0, color_byte: 0 });
}

#[test]
fn right_alignment_takes_every_second_display_row() {
    let mut screen = Screen::new(0x7, Alignment::Right);
    screen.print("ab\ncd");
    let after = cells(&screen);
    for i in 0..78 {
        assert_eq!(after[i], (b' ', 7));
    }
    assert_eq!(&after[78..80], &[(b'a', 7), (b'b', 7)]);
    for i in 80..160 {
        assert_eq!(after[i], (0, 0));
    }
    for i in 160..238 {
        assert_eq!(after[i], (b' ', 7));
    }
    assert_eq!(&after[238..240], &[(b'c', 7), (b'd', 7)]);
    for i in 1920..2000 {
        assert_eq!(after[i], (b' ', 7));
    }
    for i in 1840..1920 {
        assert_eq!(after[i], (0, 0));
    }
}

#[test]
fn print_appends_and_draws() {
    let mut screen = Screen::new(0x7, Alignment::Left);
    screen.print("ab");
    screen.print("cd");
    assert_eq!(screen.cursor(), (0, 4));
    let after = cells(&screen);
    assert_eq!(&after[0..5], &[(b'a', 7), (b'b', 7), (b'c', 7), (b'd', 7), (0, 0)]);
}

#[test]
fn foreground_color_is_the_attribute() {
    let mut screen = Screen::new(Color::YELLOW.code(), Alignment::Left);
    screen.print("a");
    assert_eq!(screen.read_char(0), AsciiChar { char_byte: b'a', color_byte: 0x0e });
    let mut other = Screen::new(0x4f, Alignment::Left);
    other.print("a");
    assert_eq!(other.read_char(0), AsciiChar { char_byte: b'a', color_byte: 0x4f });
}

#[test]
fn color_codes() {
    assert_eq!(Color::BLACK.code(), 0x0);
    assert_eq!(Color::BLUE.code(), 0x1);
    assert_eq!(Color::GREEN.code(), 0x2);
    assert_eq!(Color::AZURE.code(), 0x3);
    assert_eq!(Color::RED.code(), 0x4);
    assert_eq!(Color::PURPLE.code(), 0x5);
    assert_eq!(Color::BROWN.code(), 0x6);
    assert_eq!(Color::LIGHT_GREY.code(), 0x7);
    assert_eq!(Color::DARK_GREY.code(), 0x8);
    assert_eq!(Color::LIGHT_BLUE.code(), 0x9);
    assert_eq!(Color::LIGHT_GREEN.code(), 0xa);
    assert_eq!(Color::LIGHT_AZURE.code(), 0xb);
    assert_eq!(Color::LIGHT_RED.code(), 0xc);
    assert_eq!(Color::PINK.code(), 0xd);
    assert_eq!(Color::YELLOW.code(), 0xe);
    assert_eq!(Color::WHITE.code(), 0xf);
}
