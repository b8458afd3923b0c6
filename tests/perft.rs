use rustle::board::GameState;

/// Counts the positions `depth` legal moves deep, move by move, and prints the breakdown.
fn divide(fen: &str, depth: u32) -> u64 {
    let game = GameState::from_fen(fen).unwrap();
    let mut count = 0u64;
    for m in game.moves() {
        let below = game.apply(m).perft(depth - 1).unwrap();
        println!("{}: {}", m.describe(), below);
        count += below;
    }
    println!("\nTotal at depth {}: {}\n", depth, count);
    count
}

#[test]
fn initial_state_pseudo() {
    let fen = "rnbqkbnr/pppppppp/8/8/8/8/PPPPPPPP/RNBQKBNR w KQkq - 0 1";
    assert_eq!(divide(fen, 1), 20);
    assert_eq!(divide(fen, 2), 400);
    assert_eq!(divide(fen, 3), 8902);
    assert_eq!(divide(fen, 4), 197281);
}

#[test]
fn perft_counts_from_start() {
    let game = GameState::from_fen("rnbqkbnr/pppppppp/8/8/8/8/PPPPPPPP/RNBQKBNR w KQkq - 0 1").unwrap();
    assert_eq!(game.perft(0), Some(1));
    assert_eq!(game.perft(1), Some(20));
    assert_eq!(game.perft(2), Some(400));
}
