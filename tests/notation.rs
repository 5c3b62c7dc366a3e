use rust_nmm::board::{is_adjacent, line_point_at};
use rust_nmm::nmm::{Action, ActionKind, Color};
use rust_nmm::notation::ParseError;

#[test]
fn parses_each_kind() {
    assert_eq!(
        Action::parse("W P 0"),
        Ok(Action { player: Color::White, action: ActionKind::Place(0) })
    );
    assert_eq!(
        Action::parse("B M 0 1"),
        Ok(Action { player: Color::Black, action: ActionKind::Move(0, 1) })
    );
    assert_eq!(
        Action::parse("W R 5"),
        Ok(Action { player: Color::White, action: ActionKind::Remove(5) })
    );
    let a: Action = "  B\tR   17 ".parse().expect("parse failed");
    assert_eq!(a, Action { player: Color::Black, action: ActionKind::Remove(17) });
}

#[test]
fn parse_errors() {
    assert_eq!(Action::parse("W P"), Err(ParseError::InvalidFormat));
    assert_eq!(Action::parse(""), Err(ParseError::InvalidFormat));
    assert_eq!(Action::parse("X P 0"), Err(ParseError::InvalidPlayer));
    assert_eq!(Action::parse("WW P 0"), Err(ParseError::InvalidPlayer));
    assert_eq!(Action::parse("W Q 0"), Err(ParseError::InvalidActionType));
    assert_eq!(Action::parse("W P x"), Err(ParseError::InvalidPoint));
    assert_eq!(Action::parse("W R -1"), Err(ParseError::InvalidPoint));
    assert_eq!(Action::parse("W M 0"), Err(ParseError::InvalidMoveFormat));
    assert_eq!(Action::parse("W M 0 1 2"), Err(ParseError::InvalidMoveFormat));
    assert_eq!(Action::parse("W M a 1"), Err(ParseError::InvalidFromPoint));
    assert_eq!(Action::parse("W M 1 +"), Err(ParseError::InvalidToPoint));
}

#[test]
fn point_numbers_follow_usize_parsing() {
    assert_eq!(
        Action::parse("W P +7"),
        Ok(Action { player: Color::White, action: ActionKind::Place(7) })
    );
    assert_eq!(
        Action::parse("W P 0024"),
        Ok(Action { player: Color::White, action: ActionKind::Place(24) })
    );
    let max = format!("W P {}", usize::MAX);
    assert_eq!(
        Action::parse(&max),
        Ok(Action { player: Color::White, action: ActionKind::Place(usize::MAX) })
    );
    assert_eq!(Action::parse("W P 99999999999999999999999"), Err(ParseError::InvalidPoint));
    assert_eq!(Action::parse("W P 1 extra"), Err(ParseError::InvalidFormat));
    assert_eq!(Action::parse("W P 0 5"), Err(ParseError::InvalidFormat));
    assert_eq!(Action::parse("W R 3 9"), Err(ParseError::InvalidFormat));
}

#[test]
fn text_form() {
    let a = Action { player: Color::Black, action: ActionKind::Move(10, 3) };
    assert_eq!(a.to_text(), "B M 10 3");
    let b = Action { player: Color::White, action: ActionKind::Remove(0) };
    assert_eq!(b.to_text(), "W R 0");
    let c = Action { player: Color::White, action: ActionKind::Place(23) };
    assert_eq!(c.to_text(), "W P 23");
    for text in ["W P 7", "B M 23 16", "W R 19"] {
        assert_eq!(Action::parse(text).unwrap().to_text(), text);
    }
}

#[test]
fn adjacency_table() {
    let table: [&[usize]; 24] = [
        &[1, 7], &[0, 2, 9], &[1, 3], &[2, 4, 11], &[3, 5], &[4, 6, 13], &[5, 7], &[6, 0, 15],
        &[9, 15], &[8, 10, 1, 17], &[9, 11], &[10, 12, 3, 19], &[11, 13], &[12, 14, 5, 21],
        &[13, 15], &[14, 8, 7, 23], &[17, 23], &[16, 18, 9], &[17, 19], &[18, 20, 11],
        &[19, 21], &[20, 22, 13], &[21, 23], &[22, 16, 15],
    ];
    for p in 0..24 {
        for q in 0..24 {
            assert_eq!(is_adjacent(p, q), table[p].contains(&q), "{} {}", p, q);
        }
        assert!(!is_adjacent(p, 24));
    }
}

#[test]
fn mill_lines_table() {
    let lines = [
        [0, 1, 2], [2, 3, 4], [4, 5, 6], [6, 7, 0], [8, 9, 10], [10, 11, 12], [12, 13, 14],
        [14, 15, 8], [16, 17, 18], [18, 19, 20], [20, 21, 22], [22, 23, 16], [1, 9, 17],
        [3, 11, 19], [5, 13, 21], [7, 15, 23],
    ];
    for (l, line) in lines.iter().enumerate() {
        for k in 0..3 {
            assert_eq!(line_point_at(l, k), line[k]);
        }
    }
}

#[test]
fn opposite_color() {
    assert_eq!(Color::White.opposite(), Color::Black);
    assert_eq!(Color::Black.opposite(), Color::White);
}

#[test]
fn text_reads_back() {
    let actions = [
        Action { player: Color::White, action: ActionKind::Place(0) },
        Action { player: Color::Black, action: ActionKind::Move(23, 16) },
        Action { player: Color::Black, action: ActionKind::Remove(105) },
        Action { player: Color::White, action: ActionKind::Move(usize::MAX, 9) },
    ];
    for a in actions {
        assert_eq!(Action::parse(&a.to_text()), Ok(a));
    }
}
