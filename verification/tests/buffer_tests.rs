use editor_core::buffer::TextBuffer;
use editor_core::cursor::{Bias, Point, Position, Selection};

#[test]
fn test_line() {
    let rope = TextBuffer::from_str("Hello\nWorld\r\nThis is a test 中文\nRope");
    assert_eq!(rope.slice_row(0), "Hello");
    assert_eq!(rope.slice_row(1), "World\r");
    assert_eq!(rope.slice_row(2), "This is a test 中文");
    assert_eq!(rope.slice_row(3), "Rope");

    // over bounds
    assert_eq!(rope.slice_row(6), "");
}

#[test]
fn test_lines_len() {
    let rope = TextBuffer::from_str("Hello\nWorld\r\nThis is a test 中文\nRope");
    assert_eq!(rope.lines_len(), 4);
    let rope = TextBuffer::from_str("");
    assert_eq!(rope.lines_len(), 1);
    let rope = TextBuffer::from_str("Single line");
    assert_eq!(rope.lines_len(), 1);
}

#[test]
fn test_eq() {
    let rope = TextBuffer::from_str("Hello\nWorld\r\nThis is a test 中文\nRope");
    assert!(rope.eq(&TextBuffer::from_str(
        "Hello\nWorld\r\nThis is a test 中文\nRope"
    )));
    assert!(!rope.eq(&TextBuffer::from_str("Hello\nWorld")));

    let rope1 = rope.clone();
    assert!(rope.eq(&rope1));
}

#[test]
fn test_rows() {
    let rope = TextBuffer::from_str("Hello\nWorld\r\nThis is a test 中文\nRope");
    let lines: Vec<_> = rope.rows();
    assert_eq!(
        lines,
        vec!["Hello", "World\r", "This is a test 中文", "Rope"]
    );
}

#[test]
fn test_line_start_end_offset() {
    let rope = TextBuffer::from_str("Hello\nWorld\r\nThis is a test 中文\nRope");
    assert_eq!(rope.line_start_offset(0), 0);
    assert_eq!(rope.line_end_offset(0), 5);

    assert_eq!(rope.line_start_offset(1), 6);
    assert_eq!(rope.line_end_offset(1), 12);

    assert_eq!(rope.line_start_offset(2), 13);
    assert_eq!(rope.line_end_offset(2), 34);

    assert_eq!(rope.line_start_offset(3), 35);
    assert_eq!(rope.line_end_offset(3), 39);

    assert_eq!(rope.line_start_offset(4), 39);
    assert_eq!(rope.line_end_offset(4), 39);
}

#[test]
fn test_chars_count() {
    let rope = TextBuffer::from_str("Hello\nWorld\r\nThis is a test 中文🎉\nRope");
    assert_eq!(rope.chars_count(), 36);
    let rope = TextBuffer::from_str("");
    assert_eq!(rope.chars_count(), 0);
    let rope = TextBuffer::from_str("Single line");
    assert_eq!(rope.chars_count(), 11);
}

#[test]
fn test_line_column() {
    let rope = TextBuffer::from_str("a 中文🎉 test\nRope");
    assert_eq!(
        rope.position_to_offset(&Position::new(0, 3)),
        "a 中".len()
    );
    assert_eq!(
        rope.position_to_offset(&Position::new(0, 5)),
        "a 中文🎉".len()
    );
    assert_eq!(
        rope.position_to_offset(&Position::new(1, 1)),
        "a 中文🎉 test\nR".len()
    );

    assert_eq!(
        rope.offset_to_position("a 中文🎉 test\nR".len()),
        Position::new(1, 1)
    );
    assert_eq!(
        rope.offset_to_position("a 中文🎉".len()),
        Position::new(0, 5)
    );
}

#[test]
fn test_offset_to_point() {
    let rope = TextBuffer::from_str("a 中文🎉 test\nRope");
    assert_eq!(rope.offset_to_point(0), Point::new(0, 0));
    assert_eq!(rope.offset_to_point(1), Point::new(0, 1));
    assert_eq!(rope.offset_to_point("a 中".len()), Point::new(0, 5));
    assert_eq!(rope.offset_to_point("a 中文🎉".len()), Point::new(0, 12));
    assert_eq!(
        rope.offset_to_point("a 中文🎉 test\nR".len()),
        Point::new(1, 1)
    );
}

#[test]
fn test_point_to_offset() {
    let rope = TextBuffer::from_str("a 中文🎉 test\nRope");
    assert_eq!(rope.point_to_offset(Point::new(0, 0)), 0);
    assert_eq!(rope.point_to_offset(Point::new(0, 1)), 1);
    assert_eq!(rope.point_to_offset(Point::new(0, 5)), "a 中".len());
    assert_eq!(rope.point_to_offset(Point::new(0, 12)), "a 中文🎉".len());
    assert_eq!(
        rope.point_to_offset(Point::new(1, 1)),
        "a 中文🎉 test\nR".len()
    );
}

#[test]
fn test_char_at() {
    let rope = TextBuffer::from_str("Hello\nWorld\r\nThis is a test 中文🎉\nRope");
    assert_eq!(rope.char_at(0), Some('H'));
    assert_eq!(rope.char_at(5), Some('\n'));
    assert_eq!(rope.char_at(13), Some('T'));
    assert_eq!(rope.char_at(28), Some('中'));
    assert_eq!(rope.char_at(34), Some('🎉'));
    assert_eq!(rope.char_at(38), Some('\n'));
    assert_eq!(rope.char_at(50), None);
}

#[test]
fn test_word_at() {
    let rope = TextBuffer::from_str("Hello\nWorld\r\nThis is a test 中文 世界\nRope");
    assert_eq!(rope.word_at(0), "Hello");
    assert_eq!(rope.word_range(0), Some(Selection::new(0, 5)));
    assert_eq!(rope.word_at(8), "World");
    assert_eq!(rope.word_range(8), Some(Selection::new(6, 11)));
    assert_eq!(rope.word_at(12), "");
    assert_eq!(rope.word_range(12), None);
    assert_eq!(rope.word_at(13), "This");
    assert_eq!(rope.word_range(13), Some(Selection::new(13, 17)));
    assert_eq!(rope.word_at(31), "中文");
    assert_eq!(rope.word_range(31), Some(Selection::new(28, 34)));
    assert_eq!(rope.word_at(38), "世界");
    assert_eq!(rope.word_range(38), Some(Selection::new(35, 41)));
    assert_eq!(rope.word_at(44), "Rope");
    assert_eq!(rope.word_range(44), Some(Selection::new(42, 46)));
    assert_eq!(rope.word_at(45), "Rope");
}

#[test]
fn test_offset_utf16_conversion() {
    let rope = TextBuffer::from_str("hello 中文🎉 test\nRope");
    assert_eq!(rope.offset_to_offset_utf16("hello".len()), 5);
    assert_eq!(rope.offset_to_offset_utf16("hello 中".len()), 7);
    assert_eq!(rope.offset_to_offset_utf16("hello 中文".len()), 8);
    assert_eq!(rope.offset_to_offset_utf16("hello 中文🎉".len()), 10);
    assert_eq!(rope.offset_to_offset_utf16(100), 20);

    assert_eq!(rope.offset_utf16_to_offset(5), "hello".len());
    assert_eq!(rope.offset_utf16_to_offset(7), "hello 中".len());
    assert_eq!(rope.offset_utf16_to_offset(8), "hello 中文".len());
    assert_eq!(rope.offset_utf16_to_offset(10), "hello 中文🎉".len());
    assert_eq!(rope.offset_utf16_to_offset(100), rope.len());
}

#[test]
fn test_replace() {
    let mut rope = TextBuffer::from_str("Hello\nWorld\r\nThis is a test 中文\nRope");
    rope.replace(Selection::new(6, 11), "Universe");
    assert_eq!(
        rope.to_string(),
        "Hello\nUniverse\r\nThis is a test 中文\nRope"
    );

    rope.replace(Selection::new(0, 5), "Hi");
    assert_eq!(
        rope.to_string(),
        "Hi\nUniverse\r\nThis is a test 中文\nRope"
    );

    rope.replace(Selection::new(rope.len() - 4, rope.len()), "String");
    assert_eq!(
        rope.to_string(),
        "Hi\nUniverse\r\nThis is a test 中文\nString"
    );
}

#[test]
fn test_clip_offset() {
    let rope = TextBuffer::from_str("Hello 中文🎉 test\nRope");
    // Inside multi-byte character '中' (3 bytes)
    assert_eq!(rope.clip_offset(5, Bias::Left), 5);
    assert_eq!(rope.clip_offset(7, Bias::Left), 6);
    assert_eq!(rope.clip_offset(7, Bias::Right), 9);
    assert_eq!(rope.clip_offset(9, Bias::Left), 9);

    // Inside multi-byte character '🎉' (4 bytes)
    assert_eq!(rope.clip_offset(13, Bias::Left), 12);
    assert_eq!(rope.clip_offset(13, Bias::Right), 16);
    assert_eq!(rope.clip_offset(16, Bias::Left), 16);

    // At character boundary
    assert_eq!(rope.clip_offset(5, Bias::Left), 5);
    assert_eq!(rope.clip_offset(5, Bias::Right), 5);

    // Out of bounds
    assert_eq!(rope.clip_offset(26, Bias::Left), 26);
    assert_eq!(rope.clip_offset(100, Bias::Left), 26);
}

#[test]
fn test_lone_carriage_return_is_no_line_break() {
    let rope = TextBuffer::from_str("Hello\rWorld");
    assert_eq!(rope.lines_len(), 1);
    assert_eq!(rope.slice_row(0), "Hello\rWorld");
    assert_eq!(rope.line_end_offset(0), 11);
}

#[test]
fn test_round_trip_offsets() {
    let rope = TextBuffer::from_str("hello 中文🎉 test\nRope 世界");
    let mut offset = 0;
    while offset <= rope.len() {
        let clipped = rope.clip_offset(offset, Bias::Left);
        let pos = rope.offset_to_position(clipped);
        assert_eq!(rope.position_to_offset(&pos), clipped);
        let u16 = rope.offset_to_offset_utf16(clipped);
        assert_eq!(rope.offset_utf16_to_offset(u16), clipped);
        offset += 1;
    }
}

#[test]
fn test_slice_trimmed() {
    let rope = TextBuffer::from_str("  hi there  ");
    assert_eq!(rope.slice_trimmed(Selection::new(0, 12)), "hi there");
    assert_eq!(rope.slice_trimmed(Selection::new(0, 4)), "hi");
    assert_eq!(rope.slice_trimmed(Selection::new(0, 2)), "");
}
