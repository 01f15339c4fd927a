use qlox::src::{Location, Position};

#[test]
fn src_loc_resolve() {
    let source = String::from("Alice\nBob\nChris\nDaniel\r\nEric").into_bytes();
    let cases = [
        (0, 0, 0, 0, 4),
        (2, 0, 2, 0, 4),
        (4, 0, 4, 0, 4),
        (5, 0, 5, 0, 4),
        (10, 2, 0, 10, 14),
        (12, 2, 2, 10, 14),
        (14, 2, 4, 10, 14),
        (15, 2, 5, 10, 14),
        (16, 3, 0, 16, 21),
        (18, 3, 2, 16, 21),
        (21, 3, 5, 16, 21),
        (22, 3, 6, 16, 21),
        (23, 3, 7, 16, 21),
        (24, 4, 0, 24, 27),
        (26, 4, 2, 24, 27),
        (27, 4, 3, 24, 27),
    ];

    for (offset, line, column, line_start, line_end) in cases {
        let mut loc = Location::new(offset);
        loc.resolve(&source);
        let expected = Location::Resolved {
            pos: Position { line, column },
            line: line_start..=line_end,
        };
        assert_eq!(loc, expected);
    }
}
