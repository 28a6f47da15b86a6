use editor_core::cursor::Position;

#[test]
fn test_line_column_from_to() {
    assert_eq!(
        Position::new(1, 2),
        Position {
            line: 1,
            character: 2
        }
    );

    assert_eq!(
        Position::from((1, 2)),
        Position {
            line: 1,
            character: 2
        }
    );
    assert_eq!(
        Position::from((10, 10)),
        Position {
            line: 10,
            character: 10
        }
    );
    assert_eq!(
        Position::from((0, 0)),
        Position {
            line: 0,
            character: 0
        }
    );
}

#[test]
fn test_position_display() {
    let pos = Position::new(0, 0);
    assert_eq!(pos.to_display_string(), "1:1");

    let pos = Position::new(4, 10);
    assert_eq!(pos.to_display_string(), "5:11");
}
