use editor_core::layout::{GlyphStop, LineLayout, ShapedLine};

fn segment(stops: &[(usize, usize)]) -> ShapedLine {
    let mut v = Vec::new();
    for (index, x) in stops {
        v.push(GlyphStop {
            index: *index,
            x: *x,
        });
    }
    ShapedLine { stops: v }
}

#[test]
fn test_position_for_index() {
    // two rows: "ab" at x 0/8/16 and "cd" at x 0/8/16
    let layout = LineLayout::new().lines(vec![
        segment(&[(0, 0), (1, 8), (2, 16)]),
        segment(&[(0, 0), (1, 8), (2, 16)]),
    ]);
    assert_eq!(layout.position_for_index(0, 20), Some((0, 0)));
    assert_eq!(layout.position_for_index(1, 20), Some((8, 0)));
    // a shared boundary belongs to the earlier row
    assert_eq!(layout.position_for_index(2, 20), Some((16, 0)));
    assert_eq!(layout.position_for_index(3, 20), Some((8, 20)));
    assert_eq!(layout.position_for_index(4, 20), Some((16, 20)));
    assert_eq!(layout.position_for_index(5, 20), None);
}

#[test]
fn test_index_for_position() {
    let layout = LineLayout::new().lines(vec![
        segment(&[(0, 0), (1, 8), (2, 16)]),
        segment(&[(0, 0), (1, 8), (2, 16)]),
    ]);
    // second row band: y in 20..40, offsets continue past the first row
    assert_eq!(layout.closest_index_for_position(0, 25, 20), Some(2));
    assert_eq!(layout.closest_index_for_position(7, 25, 20), Some(3));
    assert_eq!(layout.closest_index_for_position(9, 0, 20), Some(1));
    assert_eq!(layout.closest_index_for_position(0, 45, 20), None);

    assert_eq!(layout.index_for_position(9, 0, 20), Some(1));
    // beyond the row's width nothing is hit
    assert_eq!(layout.index_for_position(17, 0, 20), None);
    assert_eq!(layout.index_for_position(0, 45, 20), None);
}

#[test]
fn test_size() {
    let layout = LineLayout::new().lines(vec![
        segment(&[(0, 0), (4, 30)]),
        segment(&[(0, 0), (2, 50)]),
    ]);
    assert_eq!(layout.size(20), (50, 40));
    assert_eq!(layout.len(), 6);
}
