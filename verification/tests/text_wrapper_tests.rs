use editor_core::buffer::TextBuffer;
use editor_core::cursor::Selection;
use editor_core::layout::{GlyphStop, LineLayout, ShapedLine};
use editor_core::text_wrapper::{MonoShaper, TextWrapper};

fn assert_wrapper_lines(wrapper: &TextWrapper<MonoShaper>, expected_lines: &[&str]) {
    assert_eq!(wrapper.lines.len(), expected_lines.len());
    for (item, expected) in wrapper.lines.iter().zip(expected_lines.iter()) {
        assert_eq!(item.line, *expected);
        assert_eq!(item.wrapped_lines, vec![Selection::new(0, expected.len())]);
    }
}

#[test]
fn test_update() {
    let mut wrapper = TextWrapper::new(MonoShaper {}, None);
    let mut text = TextBuffer::from_str(
        "Hello, 世界!\r\nThis is second line.\nThis is third line.\n这里是第 4 行。",
    );

    wrapper.update_all(&text);
    assert_eq!(wrapper.lines.len(), 4);
    assert_wrapper_lines(
        &wrapper,
        &[
            "Hello, 世界!\r",
            "This is second line.",
            "This is third line.",
            "这里是第 4 行。",
        ],
    );

    // Add a new text to end
    let range = Selection::new(text.len(), text.len());
    let new_text = "New text";
    text.replace(range, new_text);
    wrapper.update(&text, range, new_text);
    assert_eq!(
        text.to_string(),
        "Hello, 世界!\r\nThis is second line.\nThis is third line.\n这里是第 4 行。New text"
    );
    assert_eq!(wrapper.lines.len(), 4);
    assert_eq!(wrapper.lines.len(), 4);
    assert_wrapper_lines(
        &wrapper,
        &[
            "Hello, 世界!\r",
            "This is second line.",
            "This is third line.",
            "这里是第 4 行。New text",
        ],
    );

    // Replace first line `Hello` to `AAA`
    let range = Selection::new(0, 5);
    let new_text = "AAA";
    text.replace(range, new_text);
    wrapper.update(&text, range, new_text);
    assert_eq!(
        text.to_string(),
        "AAA, 世界!\r\nThis is second line.\nThis is third line.\n这里是第 4 行。New text"
    );
    assert_eq!(wrapper.lines.len(), 4);
    assert_wrapper_lines(
        &wrapper,
        &[
            "AAA, 世界!\r",
            "This is second line.",
            "This is third line.",
            "这里是第 4 行。New text",
        ],
    );

    // Remove the second line
    let start_offset = text.line_start_offset(1);
    let end_offset = text.line_end_offset(1);
    let range = Selection::new(start_offset, end_offset + 1);
    text.replace(range, "");
    wrapper.update(&text, range, "");
    assert_eq!(
        text.to_string(),
        "AAA, 世界!\r\nThis is third line.\n这里是第 4 行。New text"
    );
    assert_eq!(wrapper.lines.len(), 3);
    assert_wrapper_lines(
        &wrapper,
        &[
            "AAA, 世界!\r",
            "This is third line.",
            "这里是第 4 行。New text",
        ],
    );

    // Replace the first 2 lines to "This is a new line."
    let range = Selection::new(text.line_start_offset(0), text.line_end_offset(1) + 1);
    let new_text = "This is a new line.\nThis is new line 2.\n";
    text.replace(range, new_text);
    wrapper.update(&text, range, new_text);
    assert_eq!(
        text.to_string(),
        "This is a new line.\nThis is new line 2.\n这里是第 4 行。New text"
    );
    assert_eq!(wrapper.lines.len(), 3);
    assert_wrapper_lines(
        &wrapper,
        &[
            "This is a new line.",
            "This is new line 2.",
            "这里是第 4 行。New text",
        ],
    );

    // Add a new line at the end
    let range = Selection::new(text.len(), text.len());
    let new_text = "\nThis is a new line at the end.";
    text.replace(range, new_text);
    wrapper.update(&text, range, new_text);
    assert_eq!(
        text.to_string(),
        "This is a new line.\nThis is new line 2.\n这里是第 4 行。New text\nThis is a new line at the end."
    );
    assert_eq!(wrapper.lines.len(), 4);
    assert_wrapper_lines(
        &wrapper,
        &[
            "This is a new line.",
            "This is new line 2.",
            "这里是第 4 行。New text",
            "This is a new line at the end.",
        ],
    );

    // Add a new line at the beginning
    let range = Selection::new(0, 0);
    let new_text = "This is a new line at the beginning.\n";
    text.replace(range, new_text);
    wrapper.update(&text, range, new_text);
    assert_eq!(
        text.to_string(),
        "This is a new line at the beginning.\nThis is a new line.\nThis is new line 2.\n这里是第 4 行。New text\nThis is a new line at the end."
    );
    assert_eq!(wrapper.lines.len(), 5);
    assert_wrapper_lines(
        &wrapper,
        &[
            "This is a new line at the beginning.",
            "This is a new line.",
            "This is new line 2.",
            "这里是第 4 行。New text",
            "This is a new line at the end.",
        ],
    );

    // Remove all to at least one line in `lines`.
    let range = Selection::new(0, text.len());
    let new_text = "";
    text.replace(range, new_text);
    wrapper.update(&text, range, new_text);
    assert_eq!(text.to_string(), "");
    assert_eq!(wrapper.lines.len(), 1);
    assert_eq!(wrapper.lines[0].wrapped_lines, vec![Selection::new(0, 0)]);

    // Test update_all
    let range = Selection::new(0, text.len());
    let new_text = "This is a full text.\nThis is a second line.";
    text.replace(range, new_text);
    wrapper.update(&text, range, new_text);
    assert_eq!(
        text.to_string(),
        "This is a full text.\nThis is a second line."
    );
    assert_eq!(wrapper.lines.len(), 2);
}

fn shaped_with_len(len: usize) -> ShapedLine {
    let mut stops = Vec::new();
    stops.push(GlyphStop { index: 0, x: 0 });
    if len > 0 {
        stops.push(GlyphStop { index: len, x: 8 * len });
    }
    ShapedLine { stops }
}

#[test]
fn test_line_layout() {
    let line_layout = LineLayout::new();

    let line1 = shaped_with_len(100);
    let line2 = shaped_with_len(50);
    let wrapped_lines = vec![line1, line2];
    let line_layout = line_layout.lines(wrapped_lines);
    assert_eq!(line_layout.len(), 150);
    assert_eq!(line_layout.wrapped_lines.len(), 2);
}

#[test]
fn test_mono_wrap() {
    // width 4: "hello world" (11 chars) breaks after every 4 chars
    let mut wrapper = TextWrapper::new(MonoShaper {}, Some(4));
    let text = TextBuffer::from_str("hello world\nok");
    wrapper.update_all(&text);
    assert_eq!(wrapper.lines.len(), 2);
    assert_eq!(
        wrapper.lines[0].wrapped_lines,
        vec![
            Selection::new(0, 4),
            Selection::new(4, 8),
            Selection::new(8, 11)
        ]
    );
    assert_eq!(wrapper.lines[1].wrapped_lines, vec![Selection::new(0, 2)]);
    assert_eq!(wrapper.len(), 4);

    // multi-byte characters count as one cell but several bytes
    let text = TextBuffer::from_str("中文字符测试");
    wrapper.update_all(&text);
    assert_eq!(
        wrapper.lines[0].wrapped_lines,
        vec![Selection::new(0, 12), Selection::new(12, 18)]
    );
}

#[test]
fn test_wrap_partition_after_edits() {
    let mut wrapper = TextWrapper::new(MonoShaper {}, Some(3));
    let mut text = TextBuffer::from_str("abcdefg\n中文字符\nxy");
    wrapper.update_all(&text);

    let edits: Vec<(usize, usize, &str)> = vec![
        (0, 0, "zz\n"),
        (5, 8, "QQQQQQQQ"),
        (3, 3, "\n\n"),
        (0, 4, ""),
    ];
    for (start, end, new_text) in edits {
        let range = Selection::new(start, end);
        text.replace(range, new_text);
        wrapper.update(&text, range, new_text);

        // every line's segments partition 0..line.len()
        for item in wrapper.lines.iter() {
            assert!(item.wrapped_lines.len() >= 1);
            assert_eq!(item.wrapped_lines[0].start, 0);
            assert_eq!(
                item.wrapped_lines[item.wrapped_lines.len() - 1].end,
                item.line.len()
            );
            for w in item.wrapped_lines.windows(2) {
                assert_eq!(w[0].end, w[1].start);
                assert!(w[0].start <= w[0].end);
            }
        }
    }
}

#[test]
fn test_incremental_equals_full() {
    let mut wrapper = TextWrapper::new(MonoShaper {}, Some(5));
    let mut text = TextBuffer::from_str("one two three\nfour\n中文 字符\n\nlast");
    wrapper.update_all(&text);

    let edits: Vec<(usize, usize, &str)> = vec![
        (4, 7, "2"),
        (0, 0, "start\n"),
        (10, 10, "\nmiddle line here\n"),
        (2, 20, ""),
        (0, 3, "字"),
    ];
    for (start, end, new_text) in edits {
        let range = Selection::new(start, end);
        text.replace(range, new_text);
        wrapper.update(&text, range, new_text);

        // a full recomputation must agree with the incremental update
        let mut full = TextWrapper::new(MonoShaper {}, Some(5));
        full.update_all(&text);
        assert_eq!(wrapper.lines.len(), full.lines.len());
        for (a, b) in wrapper.lines.iter().zip(full.lines.iter()) {
            assert_eq!(a.line, b.line);
            assert_eq!(a.wrapped_lines, b.wrapped_lines);
        }
        assert_eq!(wrapper.len(), full.len());
    }
}
