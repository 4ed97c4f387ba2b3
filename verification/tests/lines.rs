use logwatcher::lines::{line_text, next_line_len};

#[test]
fn no_split_lines() {
    // A partial write without a terminator is never delivered.
    let buf: Vec<u8> = b"ab".to_vec();
    assert_eq!(next_line_len(&buf, 0), None);

    // Once the rest of the line arrives, the one delivery covers all of it.
    let buf: Vec<u8> = b"abcd\n".to_vec();
    assert_eq!(next_line_len(&buf, 0), Some(5));
    assert_eq!(line_text(&buf, 0, 5), b"abcd".to_vec());
}

#[test]
fn empty_buffer_has_no_line() {
    let buf: Vec<u8> = Vec::new();
    assert_eq!(next_line_len(&buf, 0), None);
}

#[test]
fn start_at_end_has_no_line() {
    let buf: Vec<u8> = b"abc\n".to_vec();
    assert_eq!(next_line_len(&buf, 4), None);
}

#[test]
fn finds_each_line_in_turn() {
    let buf: Vec<u8> = b"one\ntwo\n".to_vec();
    assert_eq!(next_line_len(&buf, 0), Some(4));
    assert_eq!(next_line_len(&buf, 4), Some(4));
    assert_eq!(line_text(&buf, 0, 4), b"one".to_vec());
    assert_eq!(line_text(&buf, 4, 4), b"two".to_vec());
}

#[test]
fn empty_line_is_a_line() {
    let buf: Vec<u8> = b"\nrest".to_vec();
    assert_eq!(next_line_len(&buf, 0), Some(1));
    assert_eq!(line_text(&buf, 0, 1), Vec::<u8>::new());
}

#[test]
fn text_strips_every_terminator() {
    let buf: Vec<u8> = b"a\nb".to_vec();
    assert_eq!(line_text(&buf, 0, 3), b"ab".to_vec());
}
