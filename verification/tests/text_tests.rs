use fract::ansi::{append_decimal, move_cursor};
use fract::error::FractError;
use fract::matrix::Matrix;
use fract::textbuffer::TextBuffer;

fn row_text(t: &TextBuffer, y: usize) -> String {
    t.buffer.get_row(y).iter().map(|c| if *c == '\0' { '.' } else { *c }).collect()
}

#[test]
fn cursor_sequence_counts_from_one() {
    assert_eq!(move_cursor(0, 0), "\x1b[1;1H");
    assert_eq!(move_cursor(9, 23), "\x1b[24;10H");
    assert_eq!(move_cursor(79, 0), "\x1b[1;80H");
    assert_eq!(move_cursor(-5, -1), "\x1b[0;-4H");
    assert_eq!(move_cursor(i32::MAX, i32::MIN), "\x1b[-2147483647;2147483648H");
}

#[test]
fn decimal_is_appended_in_place() {
    let mut s = String::from("n=");
    append_decimal(&mut s, 0);
    append_decimal(&mut s, -10);
    append_decimal(&mut s, 9007);
    assert_eq!(s, "n=0-109007");
    let mut s = String::new();
    append_decimal(&mut s, i64::MAX);
    assert_eq!(s, "9223372036854775807");
    let mut s = String::new();
    append_decimal(&mut s, i64::MIN + 1);
    assert_eq!(s, "-9223372036854775807");
}

#[test]
fn new_buffer_is_empty_and_refuses_zero_size() {
    let t = TextBuffer::new(4, 2).unwrap();
    assert_eq!(row_text(&t, 0), "....");
    assert_eq!(row_text(&t, 1), "....");
    assert!(matches!(TextBuffer::new(0, 2), Err(FractError::InvalidDimensions)));
    assert!(matches!(TextBuffer::new(2, 0), Err(FractError::InvalidDimensions)));
}

#[test]
fn set_size_replaces_the_buffer() {
    let mut t = TextBuffer::new(4, 2).unwrap();
    t.draw_string(&"abcd".to_string(), 0, 0);
    assert_eq!(t.set_size(0, 3), Err(FractError::InvalidDimensions));
    assert_eq!(row_text(&t, 0), "abcd");
    assert_eq!(t.set_size(3, 1), Ok(()));
    assert_eq!(t.buffer.width(), 3);
    assert_eq!(t.buffer.height(), 1);
    assert_eq!(row_text(&t, 0), "...");
}

#[test]
fn string_is_cut_at_both_edges() {
    let mut t = TextBuffer::new(5, 3).unwrap();
    t.draw_string(&"hello".to_string(), -2, 0);
    assert_eq!(row_text(&t, 0), "llo..");
    t.draw_string(&"hello".to_string(), 3, 1);
    assert_eq!(row_text(&t, 1), "...he");
    t.draw_string(&"ab".to_string(), 1, 2);
    assert_eq!(row_text(&t, 2), ".ab..");
    t.draw_string(&"0123456789".to_string(), -3, 2);
    assert_eq!(row_text(&t, 2), "34567");
    assert_eq!(row_text(&t, 0), "llo..");
    assert_eq!(row_text(&t, 1), "...he");
}

#[test]
fn string_outside_the_buffer_draws_nothing() {
    let mut t = TextBuffer::new(3, 2).unwrap();
    t.draw_string(&"abc".to_string(), 0, -1);
    t.draw_string(&"abc".to_string(), 0, 2);
    t.draw_string(&"abc".to_string(), 3, 0);
    t.draw_string(&"abc".to_string(), -3, 1);
    t.draw_string(&"abc".to_string(), i32::MAX, 0);
    t.draw_string(&"abc".to_string(), i32::MIN, i32::MIN);
    t.draw_string(&"".to_string(), 0, 0);
    assert_eq!(row_text(&t, 0), "...");
    assert_eq!(row_text(&t, 1), "...");
}

#[test]
fn string_is_drawn_by_characters_not_bytes() {
    let mut t = TextBuffer::new(4, 1).unwrap();
    t.draw_string(&"█µx".to_string(), 1, 0);
    assert_eq!(row_text(&t, 0), ".█µx");
}

#[test]
fn indices_are_looked_up_as_far_as_both_grids_reach() {
    let chars: Vec<char> = " .:#".chars().collect();
    let mut indices: Matrix<u8> = Matrix::new(2, 3).unwrap();
    indices.set(0, 0, 3);
    indices.set(1, 0, 2);
    indices.set(0, 1, 1);
    indices.set(1, 2, 3);
    let mut t = TextBuffer::new(3, 2).unwrap();
    t.draw_string(&"xyz".to_string(), 0, 0);
    t.draw_indices(&indices, &chars);
    assert_eq!(t.buffer.get_row(0), &vec!['#', ':', 'z']);
    assert_eq!(t.buffer.get_row(1), &vec!['.', ' ', '\0']);
}

#[test]
fn values_are_drawn_through_the_glyph_function() {
    let mut values: Matrix<u16> = Matrix::new(3, 1).unwrap();
    values.set(0, 0, 0);
    values.set(1, 0, 5);
    values.set(2, 0, 25);
    let mut t = TextBuffer::new(2, 2).unwrap();
    t.draw_ascii_rect(&values, &|v: u16| if v == 0 { '-' } else { char::from(b'a' + v as u8) });
    assert_eq!(t.buffer.get_row(0), &vec!['-', 'f']);
    assert_eq!(t.buffer.get_row(1), &vec!['\0', '\0']);
}
