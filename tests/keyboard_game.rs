use public_transport::keyboard_game::{Game, Key, LogRecord};

#[test]
fn walks_and_stops_at_edges() {
    let mut g = Game::new(6, 4);
    assert_eq!(g.process_key(Key::Right), vec![LogRecord::Started(0, 0), LogRecord::Moved(1, 0)]);
    assert_eq!(g.process_key(Key::Right), vec![LogRecord::Moved(2, 0)]);
    assert_eq!(g.process_key(Key::Up), vec![LogRecord::Stayed]);
    assert_eq!(g.process_key(Key::Left), vec![LogRecord::Moved(1, 0)]);
    assert_eq!(g.process_key(Key::Down), vec![LogRecord::Moved(1, 1)]);
    assert_eq!(g.process_key(Key::Quit), vec![LogRecord::Finished]);
}

#[test]
fn empty_board_never_moves() {
    let mut g = Game::new(0, 0);
    assert_eq!(g.process_key(Key::Down), vec![LogRecord::Started(0, 0), LogRecord::Stayed]);
    assert_eq!(g.process_key(Key::Right), vec![LogRecord::Stayed]);
    assert_eq!(g.process_key(Key::Left), vec![LogRecord::Stayed]);
}
