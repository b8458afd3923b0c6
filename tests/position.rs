use rustle::board::{BitBoard, Castle, Direction, GameState, Piece, Sides, Square};
use rustle::fen::FenError;
use rustle::moves::Move;

const START: &str = "rnbqkbnr/pppppppp/8/8/8/8/PPPPPPPP/RNBQKBNR w KQkq - 0 1";

fn bits(squares: &[u8]) -> u64 {
    squares.iter().fold(0u64, |b, s| b | 1u64 << s)
}

fn find(moves: &[Move], from: u8, to: u8) -> Move {
    *moves
        .iter()
        .find(|m| m.from == Square(from) && m.to == Square(to))
        .expect("move present")
}

#[test]
fn fen_initial_position() {
    let g = GameState::from_fen(START).unwrap();
    assert_eq!(g.turn, Sides::White);
    assert_eq!(g.castle_rights, 0b1111);
    assert_eq!(g.en_passant, None);
    let white = [
        (Piece::Pawn, bits(&[48, 49, 50, 51, 52, 53, 54, 55])),
        (Piece::Rook, bits(&[56, 63])),
        (Piece::Knight, bits(&[57, 62])),
        (Piece::Bishop, bits(&[58, 61])),
        (Piece::Queen, bits(&[59])),
        (Piece::King, bits(&[60])),
    ];
    let black = [
        (Piece::Pawn, bits(&[8, 9, 10, 11, 12, 13, 14, 15])),
        (Piece::Rook, bits(&[0, 7])),
        (Piece::Knight, bits(&[1, 6])),
        (Piece::Bishop, bits(&[2, 5])),
        (Piece::Queen, bits(&[3])),
        (Piece::King, bits(&[4])),
    ];
    let mut total = 0;
    for (piece, b) in white {
        assert_eq!(g.board(Sides::White, piece).0, b);
        total += b.count_ones();
    }
    for (piece, b) in black {
        assert_eq!(g.board(Sides::Black, piece).0, b);
        total += b.count_ones();
    }
    assert_eq!(total, 32);
}

#[test]
fn fen_without_castling_rights() {
    let g = GameState::from_fen("r3k2r/8/8/8/8/8/8/R3K2R b - - 0 1").unwrap();
    assert_eq!(g.castle_rights, 0);
    assert_eq!(g.turn, Sides::Black);
}

#[test]
fn fen_partial_rights_and_en_passant() {
    let g = GameState::from_fen("rnbqkbnr/pppppppp/8/8/4P3/8/PPPP1PPP/RNBQKBNR b Kq e3 0 1").unwrap();
    assert_eq!(g.castle_rights, Castle::WhiteKing.bit() | Castle::BlackQueen.bit());
    assert_eq!(g.en_passant, Some(Square(44)));
    assert!(g.board(Sides::White, Piece::Pawn).get(Square(36)));
}

#[test]
fn fen_ignores_clocks() {
    let g = GameState::from_fen("8/8/8/8/8/8/8/K6k w - -").unwrap();
    assert!(g.board(Sides::White, Piece::King).get(Square(56)));
    assert!(g.board(Sides::Black, Piece::King).get(Square(63)));
}

#[test]
fn fen_errors() {
    assert_eq!(GameState::from_fen("8/8/8/8/8/8/8/8 w -").err(), Some(FenError::MissingField));
    assert_eq!(GameState::from_fen("").err(), Some(FenError::MissingField));
    assert_eq!(
        GameState::from_fen("8/8/8/8/8/8/8/7x w - - 0 1").err(),
        Some(FenError::BoardChar('x'))
    );
    assert_eq!(
        GameState::from_fen("8/8/8/8/8/8/8/9 w - - 0 1").err(),
        Some(FenError::BoardChar('9'))
    );
    assert_eq!(GameState::from_fen("8/8/8/8/8/8/8/7 w - - 0 1").err(), Some(FenError::RankLength));
    assert_eq!(GameState::from_fen("8/8/8/8/8/8/8/8p w - - 0 1").err(), Some(FenError::RankLength));
    assert_eq!(GameState::from_fen("8/8/8/8/8/8/8 w - - 0 1").err(), Some(FenError::RankLength));
    assert_eq!(GameState::from_fen("8/8/8/8/8/8/8/8/8 w - - 0 1").err(), Some(FenError::RankLength));
    assert_eq!(GameState::from_fen("8/8/8/8/8/8/8/8 x - - 0 1").err(), Some(FenError::Side));
    assert_eq!(
        GameState::from_fen("8/8/8/8/8/8/8/8 w KX - 0 1").err(),
        Some(FenError::CastleChar('X'))
    );
    assert_eq!(GameState::from_fen("8/8/8/8/8/8/8/8 w - e9 0 1").err(), Some(FenError::EnPassant));
    assert_eq!(GameState::from_fen("8/8/8/8/8/8/8/8 w - e33 0 1").err(), Some(FenError::EnPassant));
}

#[test]
fn fen_stops_at_first_bad_field() {
    assert_eq!(GameState::from_fen("8/8/8/8/8/8/8/8 x Z e9").err(), Some(FenError::Side));
    assert_eq!(GameState::from_fen("8/8/8/8/8/8/8/7? w - -").err(), Some(FenError::BoardChar('?')));
}

#[test]
fn square_range() {
    assert_eq!(Square::new(63), Some(Square(63)));
    assert_eq!(Square::new(64), None);
    assert_eq!(Square(52).index(), 52);
    assert_eq!(Square(52).name(), "E2");
    assert_eq!(Square(0).name(), "A8");
    assert_eq!(Square(63).name(), "H1");
}

#[test]
fn step_stays_on_board() {
    assert_eq!(Square(3).step(Direction::N), None);
    assert_eq!(Square(11).step(Direction::N), Some(Square(3)));
    assert_eq!(Square(60).step(Direction::S), None);
    assert_eq!(Square(52).step(Direction::S), Some(Square(60)));
    assert_eq!(Square(8).step(Direction::W), None);
    assert_eq!(Square(15).step(Direction::E), None);
    assert_eq!(Square(14).step(Direction::E), Some(Square(15)));
    assert_eq!(Square(15).step(Direction::NE), None);
    assert_eq!(Square(14).step(Direction::NE), Some(Square(7)));
    assert_eq!(Square(4).step(Direction::NW), None);
    assert_eq!(Square(56).step(Direction::SW), None);
    assert_eq!(Square(36).step(Direction::SW), Some(Square(43)));
    assert_eq!(Square(36).step(Direction::SE), Some(Square(45)));
    assert_eq!(Square(36).step(Direction::NW), Some(Square(27)));
}

#[test]
fn bitboard_get_and_flip() {
    let mut b = BitBoard(0);
    assert!(!b.get(Square(10)));
    b.flip(Square(10));
    assert!(b.get(Square(10)));
    assert_eq!(b.0, 1 << 10);
    b.flip(Square(10));
    assert_eq!(b.0, 0);
    b.flip(Square(63));
    assert_eq!(b.0, 1 << 63);
}

#[test]
fn sides_switch() {
    assert_eq!(Sides::White.switch(), Sides::Black);
    assert_eq!(Sides::Black.switch(), Sides::White);
}

#[test]
fn board_mut_edits_one_board() {
    let mut g = GameState::empty();
    g.board_mut(Sides::Black, Piece::Queen).flip(Square(20));
    assert!(g.board(Sides::Black, Piece::Queen).get(Square(20)));
    assert!(!g.board(Sides::White, Piece::Queen).get(Square(20)));
}

#[test]
fn double_push_opens_en_passant() {
    let g = GameState::from_fen(START).unwrap();
    let moves = g.pseudo_moves();
    let push = find(&moves, 52, 36);
    let after = g.apply(push);
    assert_eq!(after.en_passant, Some(Square(44)));
    assert_eq!(after.turn, Sides::Black);
    assert!(after.board(Sides::White, Piece::Pawn).get(Square(36)));
    assert!(!after.board(Sides::White, Piece::Pawn).get(Square(52)));
    // the position it was applied to is untouched
    assert!(g.board(Sides::White, Piece::Pawn).get(Square(52)));
    let reply = find(&after.pseudo_moves(), 1, 18);
    assert_eq!(after.apply(reply).en_passant, None);
    let single = find(&moves, 51, 43);
    assert_eq!(g.apply(single).en_passant, None);
}

#[test]
fn en_passant_capture() {
    let g = GameState::from_fen("4k3/8/8/3pP3/8/8/8/4K3 w - d6 0 1").unwrap();
    let moves = g.pseudo_moves();
    let ep = find(&moves, 28, 19);
    assert_eq!(ep.capture, Some(Square(27)));
    let after = g.apply(ep);
    assert_eq!(after.board(Sides::Black, Piece::Pawn).0, 0);
    assert!(after.board(Sides::White, Piece::Pawn).get(Square(19)));
}

#[test]
fn castling_moves_and_rights() {
    let g = GameState::from_fen("r3k2r/8/8/8/8/8/8/R3K2R w KQkq - 0 1").unwrap();
    let moves = g.pseudo_moves();
    let castles: Vec<Castle> = moves.iter().filter_map(|m| m.castle).collect();
    assert_eq!(castles, vec![Castle::WhiteQueen, Castle::WhiteKing]);
    let short = *moves.iter().find(|m| m.castle == Some(Castle::WhiteKing)).unwrap();
    let after = g.apply(short);
    assert!(after.board(Sides::White, Piece::King).get(Square(62)));
    assert!(after.board(Sides::White, Piece::Rook).get(Square(61)));
    assert!(!after.board(Sides::White, Piece::Rook).get(Square(63)));
    assert_eq!(after.castle_rights, Castle::BlackKing.bit() | Castle::BlackQueen.bit());

    let rook = find(&moves, 56, 57);
    assert_eq!(g.apply(rook).castle_rights, 0b1110);

    let blocked = GameState::from_fen("r3k2r/8/8/8/8/8/8/RN2K1NR w KQkq - 0 1").unwrap();
    assert!(blocked.pseudo_moves().iter().all(|m| m.castle.is_none()));
}

#[test]
fn captured_rook_drops_right() {
    let g = GameState::from_fen("r3k2r/8/8/8/8/8/8/R3K2R w KQkq - 0 1").unwrap();
    let take = find(&g.pseudo_moves(), 63, 7);
    assert_eq!(take.capture, Some(Square(7)));
    let after = g.apply(take);
    assert_eq!(after.castle_rights, Castle::WhiteQueen.bit() | Castle::BlackQueen.bit());
    assert_eq!(after.board(Sides::Black, Piece::Rook).0, 1);
}

#[test]
fn rights_never_grow() {
    let mut g = GameState::from_fen("r3k2r/pppppppp/8/8/8/8/PPPPPPPP/R3K2R w Kq - 0 1").unwrap();
    let start = g.castle_rights;
    for _ in 0..6 {
        let moves = g.moves();
        g = g.apply(moves[moves.len() - 1]);
        assert_eq!(g.castle_rights & !start, 0);
    }
}

#[test]
fn promotion_yields_four_moves() {
    let g = GameState::from_fen("n3k3/1P6/8/8/8/8/8/4K3 w - - 0 1").unwrap();
    let moves = g.pseudo_moves();
    let push: Vec<Option<Piece>> = moves.iter().filter(|m| m.from == Square(9) && m.to == Square(1)).map(|m| m.promotion).collect();
    assert_eq!(push, vec![Some(Piece::Bishop), Some(Piece::Knight), Some(Piece::Rook), Some(Piece::Queen)]);
    let take: Vec<Option<Piece>> = moves.iter().filter(|m| m.from == Square(9) && m.to == Square(0)).map(|m| m.promotion).collect();
    assert_eq!(take.len(), 4);
    assert!(!moves.iter().any(|m| m.from == Square(9) && m.to == Square(2)));
    let queen = *moves.iter().find(|m| m.to == Square(0) && m.promotion == Some(Piece::Queen)).unwrap();
    let after = g.apply(queen);
    assert!(after.board(Sides::White, Piece::Queen).get(Square(0)));
    assert_eq!(after.board(Sides::White, Piece::Pawn).0, 0);
    assert_eq!(after.board(Sides::Black, Piece::Knight).0, 0);
}

#[test]
fn black_promotion() {
    let g = GameState::from_fen("4k3/8/8/8/8/8/1p6/4K3 b - - 0 1").unwrap();
    let n = g.pseudo_moves().iter().filter(|m| m.piece == Piece::Pawn && m.to == Square(57)).count();
    assert_eq!(n, 4);
}

#[test]
fn generation_is_deterministic() {
    let g = GameState::from_fen("r3k2r/ppp1pppp/8/2PpP3/4PP2/8/PPPPPPPP/R3K2R w KQkq d6 0 1").unwrap();
    assert_eq!(g.pseudo_moves(), g.pseudo_moves());
    assert_eq!(g.moves(), g.moves());
}

#[test]
fn generation_order() {
    let g = GameState::from_fen(START).unwrap();
    let moves = g.pseudo_moves();
    assert_eq!(moves.len(), 20);
    assert_eq!(moves[0].from, Square(48));
    assert_eq!(moves[0].to, Square(40));
    assert_eq!(moves[1].to, Square(32));
    assert_eq!(moves[16].piece, Piece::Knight);
    assert_eq!(moves[16].from, Square(57));
}

#[test]
fn sliding_and_blocking() {
    let g = GameState::from_fen("4k3/8/8/8/3p4/8/8/R2QK3 w - - 0 1").unwrap();
    let moves = g.pseudo_moves();
    let rook: Vec<u8> = moves.iter().filter(|m| m.piece == Piece::Rook).map(|m| m.to.0).collect();
    assert_eq!(rook, vec![48, 40, 32, 24, 16, 8, 0, 57, 58]);
    let queen_take = find(&moves, 59, 35);
    assert_eq!(queen_take.capture, Some(Square(35)));
    assert!(!moves.iter().any(|m| m.from == Square(59) && m.to == Square(27)));
}

#[test]
fn legality_filter() {
    let g = GameState::from_fen("4k3/8/8/8/8/8/4r3/4K3 w - - 0 1").unwrap();
    assert_eq!(g.pseudo_moves().len(), 5);
    let legal = g.moves();
    let mut dests: Vec<u8> = legal.iter().map(|m| m.to.0).collect();
    dests.sort();
    assert_eq!(dests, vec![52, 59, 61]);
    assert!(!g.is_legal(find(&g.pseudo_moves(), 60, 51)));
    assert!(g.is_legal(find(&g.pseudo_moves(), 60, 52)));
}

#[test]
fn describe_moves() {
    let g = GameState::from_fen(START).unwrap();
    assert_eq!(find(&g.pseudo_moves(), 52, 36).describe(), "Pawn E2 to E4");
    let c = GameState::from_fen("r3k2r/8/8/8/8/8/8/R3K2R b KQkq - 0 1").unwrap();
    let texts: Vec<String> = c.pseudo_moves().iter().filter(|m| m.castle.is_some()).map(|m| m.describe()).collect();
    assert_eq!(texts, vec!["Black Queenside Castle", "Black Kingside Castle"]);
    let p = GameState::from_fen("n3k3/1P6/8/8/8/8/8/4K3 w - - 0 1").unwrap();
    let m = *p.pseudo_moves().iter().find(|m| m.to == Square(0)).unwrap();
    assert_eq!(m.describe(), "Pawn B7 to A8 with capture with promotion");
}

#[test]
fn bitboard_from_squares() {
    assert_eq!(BitBoard::from_squares(vec![]).0, 0);
    let b = BitBoard::from_squares(vec![0, 9, 63, 9]);
    assert_eq!(b.0, 1 | 1 << 9 | 1 << 63);
    assert!(b.get(Square(9)));
    assert!(!b.get(Square(10)));
}

#[test]
fn boards_stay_disjoint() {
    let mut g = GameState::from_fen("r3k2r/pp1ppppp/8/2pP4/8/8/PPP1PPPP/R3K2R w KQkq c6 0 1").unwrap();
    for ply in 0..12 {
        let moves = g.pseudo_moves();
        let m = moves[(ply * 7) % moves.len()];
        g = g.apply(m);
        let mut seen = 0u64;
        for side in [Sides::White, Sides::Black] {
            for piece in [Piece::Pawn, Piece::Rook, Piece::Knight, Piece::Bishop, Piece::Queen, Piece::King] {
                let b = g.board(side, piece).0;
                assert_eq!(seen & b, 0);
                seen |= b;
            }
        }
    }
}
