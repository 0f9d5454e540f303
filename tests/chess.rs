use public_transport::chess::{Color, Error, GameState, Piece, PieceType, Position, Turn};

fn at(s: &str) -> Position {
    match Position::try_from(s) {
        Ok(p) => p,
        Err(_) => panic!("bad square"),
    }
}

#[test]
fn squares_parse() {
    let p = at("e2");
    assert_eq!(p, Position { row: 1, column: 4 });
    assert!(p.is_valid());
    assert_eq!(at("a1"), Position { row: 0, column: 0 });
    assert_eq!(at("h8"), Position { row: 7, column: 7 });
    assert!(matches!(Position::try_from("i1"), Err(Error::Other(_))));
    assert!(matches!(Position::try_from("a9"), Err(Error::Other(_))));
    assert!(matches!(Position::try_from("a"), Err(Error::Other(_))));
    assert!(matches!(Position::try_from("a10"), Err(Error::Other(_))));
    assert!(!Position { row: 8, column: 0 }.is_valid());
}

#[test]
fn starting_board() {
    let g = GameState::new();
    assert_eq!(g.get_field(at("e1")), Some(Piece::White(PieceType::King)));
    assert_eq!(g.get_field(at("d8")), Some(Piece::Black(PieceType::Queen)));
    assert_eq!(g.get_field(at("b7")), Some(Piece::Black(PieceType::Pawn)));
    assert_eq!(g.get_field(at("e4")), None);
    assert_eq!(g.get_field(Position { row: 9, column: 0 }), None);
    assert_eq!(g.current_player(), Turn::WhitePlays);
}

#[test]
fn moves_alternate_and_capture() {
    let mut g = GameState::new();
    assert!(matches!(g.make_move(at("e7"), at("e5")), Err(Error::BadMove(_))));
    assert!(matches!(g.make_move(at("e4"), at("e5")), Err(Error::BadMove(_))));
    assert!(matches!(g.make_move(at("a1"), at("a2")), Err(Error::BadMove(_))));
    assert!(matches!(
        g.make_move(at("a1"), Position { row: 8, column: 0 }),
        Err(Error::BadMove(_))
    ));
    assert!(matches!(g.make_move(at("e2"), at("e4")), Ok(None)));
    assert_eq!(g.get_field(at("e2")), None);
    assert_eq!(g.get_field(at("e4")), Some(Piece::White(PieceType::Pawn)));
    assert_eq!(g.current_player(), Turn::BlackPlays);
    assert!(matches!(g.make_move(at("d7"), at("e4")), Ok(Some(Piece::White(PieceType::Pawn)))));
    assert_eq!(g.current_player(), Turn::WhitePlays);
}

#[test]
fn written_moves() {
    let mut g = GameState::new();
    assert!(g.handle_move("e2-e4").is_ok());
    assert!(matches!(g.handle_move("e7e5"), Err(Error::Other(_))));
    assert!(matches!(g.handle_move("z7-e5"), Err(Error::Other(_))));
    assert!(matches!(g.handle_move("e7-e9"), Err(Error::Other(_))));
    assert!(matches!(g.handle_move("e2-e3"), Err(Error::BadMove(_))));
    assert!(g.handle_move("e7-e5").is_ok());
    assert_eq!(g.current_player(), Turn::WhitePlays);
}

#[test]
fn colors() {
    assert_eq!(Piece::Black(PieceType::Rook).get_color(), Color::Black);
    let mut t = Turn::WhitePlays;
    assert_eq!(t.get_color(), Color::White);
    t.change();
    assert_eq!(t, Turn::BlackPlays);
    t.change();
    assert_eq!(t, Turn::WhitePlays);
}

fn refusal(r: Result<Option<Piece>, Error>) -> String {
    match r {
        Err(Error::BadMove(m)) => m,
        _ => panic!("expected a refused move"),
    }
}

#[test]
fn refused_moves_say_why() {
    let mut g = GameState::new();
    assert_eq!(refusal(g.make_move(at("a1"), Position { row: 0, column: 8 })), "Invalid position");
    assert_eq!(refusal(g.make_move(at("e4"), at("e5"))), "No piece at position");
    assert_eq!(refusal(g.make_move(at("e7"), at("e5"))), "Not your turn");
    assert_eq!(refusal(g.make_move(at("a1"), at("a2"))), "Cannot take your own piece");
    assert_eq!(g.current_player(), Turn::WhitePlays);
    match g.handle_move("e2-e2") {
        Err(Error::BadMove(m)) => assert_eq!(m, "Cannot take your own piece"),
        _ => panic!("expected a refused move"),
    }
}
