use vstd::prelude::*;
use crate::board::{
    bit, slot, step_spec, room, piece_at, BitBoard, Castle, Direction, GameState, Piece, Position,
    Sides, Square, WHITE_QUEEN, WHITE_KING, BLACK_QUEEN, BLACK_KING, square_name, file_text,
    rank_text,
};
use vstd::string::StringExecFns;

verus! {

/// One ply: the piece that moves, where from and to, the square of the piece it takes (one rank
/// behind `to` for en passant), the castle it performs and the piece a pawn becomes.
#[derive(Clone, Copy, PartialEq, Eq, Debug, Structural)]
pub struct Move {
    pub piece: Piece,
    pub from: Square,
    pub to: Square,
    pub capture: Option<Square>,
    pub castle: Option<Castle>,
    pub promotion: Option<Piece>,
}

impl Move {
    pub open spec fn valid(self) -> bool {
        &&& self.from.valid()
        &&& self.to.valid()
        &&& self.capture matches Some(c) ==> c.valid()
    }
}

/// A plain move: no castle, no promotion.
pub open spec fn plain(piece: Piece, from: Square, to: Square, capture: Option<Square>) -> Move {
    Move { piece, from, to, capture, castle: None, promotion: None }
}

/// The union of the first `k` boards of `side`.
pub open spec fn side_union(boards: Seq<BitBoard>, side: Sides, k: int) -> u64
    decreases k,
{
    if k <= 0 {
        0
    } else {
        side_union(boards, side, k - 1) | boards[side.ord() * 6 + k - 1].0
    }
}

/// Every square that the side to move occupies.
pub open spec fn ours(p: Position) -> u64 {
    side_union(p.boards, p.turn, 6)
}

/// Every square that the opponent occupies.
pub open spec fn theirs(p: Position) -> u64 {
    side_union(p.boards, p.turn.other(), 6)
}

/// A knight's or king's move onto `to`: a capture where the opponent stands, a quiet move onto
/// an empty square, nothing onto one's own piece or off the board.
pub open spec fn hop(our: u64, opp: u64, piece: Piece, from: Square, to: Option<Square>) -> Seq<
    Move,
> {
    match to {
        None => seq![],
        Some(t) => if bit(opp, t.0 as u64) {
            seq![plain(piece, from, t, Some(t))]
        } else if !bit(our, t.0 as u64) {
            seq![plain(piece, from, t, None)]
        } else {
            seq![]
        },
    }
}

/// The moves of a slider from `from` along `dir`, walking on from `cur`: every empty square,
/// then the first occupied one if it is the opponent's.
pub open spec fn ray(our: u64, opp: u64, piece: Piece, from: Square, cur: Square, dir: Direction) -> Seq<
    Move,
>
    decreases room(cur, dir),
{
    match step_spec(cur, dir) {
        None => seq![],
        Some(n) => if bit(opp, n.0 as u64) {
            seq![plain(piece, from, n, Some(n))]
        } else if bit(our, n.0 as u64) {
            seq![]
        } else {
            seq![plain(piece, from, n, None)] + ray(our, opp, piece, from, n, dir)
        },
    }
}

/// The rays of a slider along each of `dirs`, in that order.
pub open spec fn rays(our: u64, opp: u64, piece: Piece, from: Square, dirs: Seq<Direction>) -> Seq<
    Move,
>
    decreases dirs.len(),
{
    if dirs.len() == 0 {
        seq![]
    } else {
        rays(our, opp, piece, from, dirs.drop_last()) + ray(
            our,
            opp,
            piece,
            from,
            from,
            dirs.last(),
        )
    }
}

/// One step along each of `dirs`, in that order.
pub open spec fn hops(our: u64, opp: u64, piece: Piece, from: Square, dirs: Seq<Direction>) -> Seq<
    Move,
>
    decreases dirs.len(),
{
    if dirs.len() == 0 {
        seq![]
    } else {
        hops(our, opp, piece, from, dirs.drop_last()) + hop(
            our,
            opp,
            piece,
            from,
            step_spec(from, dirs.last()),
        )
    }
}

pub open spec fn rook_dirs() -> Seq<Direction> {
    seq![Direction::N, Direction::S, Direction::E, Direction::W]
}

pub open spec fn bishop_dirs() -> Seq<Direction> {
    seq![Direction::NE, Direction::SE, Direction::NW, Direction::SW]
}

pub open spec fn all_dirs() -> Seq<Direction> {
    rook_dirs() + bishop_dirs()
}

/// A knight's leg: one diagonal step, then one of its orthogonal parts.
pub open spec fn leg(from: Square, diag: Direction, orth: Direction) -> Option<Square> {
    match step_spec(from, diag) {
        None => None,
        Some(m) => step_spec(m, orth),
    }
}

pub open spec fn knight_spec(our: u64, opp: u64, from: Square) -> Seq<Move> {
    let k = Piece::Knight;
    hop(our, opp, k, from, leg(from, Direction::NE, Direction::N)) + hop(
        our,
        opp,
        k,
        from,
        leg(from, Direction::NE, Direction::E),
    ) + hop(our, opp, k, from, leg(from, Direction::NW, Direction::N)) + hop(
        our,
        opp,
        k,
        from,
        leg(from, Direction::NW, Direction::W),
    ) + hop(our, opp, k, from, leg(from, Direction::SE, Direction::S)) + hop(
        our,
        opp,
        k,
        from,
        leg(from, Direction::SE, Direction::E),
    ) + hop(our, opp, k, from, leg(from, Direction::SW, Direction::S)) + hop(
        our,
        opp,
        k,
        from,
        leg(from, Direction::SW, Direction::W),
    )
}

/// The direction in which the pawns of `side` advance.
pub open spec fn forward(side: Sides) -> Direction {
    match side {
        Sides::White => Direction::N,
        Sides::Black => Direction::S,
    }
}

/// The row (counted from the top) on which the pawns of `side` start.
pub open spec fn start_row(side: Sides) -> int {
    match side {
        Sides::White => 6,
        Sides::Black => 1,
    }
}

/// The row (counted from the top) on which the pawns of `side` promote.
pub open spec fn last_row(side: Sides) -> int {
    match side {
        Sides::White => 0,
        Sides::Black => 7,
    }
}

/// The two diagonal directions in which the pawns of `side` capture.
pub open spec fn capture_dirs(side: Sides) -> (Direction, Direction) {
    match side {
        Sides::White => (Direction::NW, Direction::NE),
        Sides::Black => (Direction::SW, Direction::SE),
    }
}

/// The square one rank behind `s` as seen by a pawn of `side`: where the pawn taken en passant
/// stands.
pub open spec fn behind(side: Sides, s: Square) -> Square {
    match side {
        Sides::White => Square((s.0 + 8) as u8),
        Sides::Black => Square((s.0 - 8) as u8),
    }
}

/// The single and double pushes of a pawn on `from` (destination, captured square).
pub open spec fn pushes(p: Position, block: u64, from: Square) -> Seq<(Square, Option<Square>)> {
    let f = forward(p.turn);
    match step_spec(from, f) {
        None => seq![],
        Some(s) => if bit(block, s.0 as u64) {
            seq![]
        } else {
            seq![(s, None::<Square>)] + if from.row() == start_row(p.turn) {
                match step_spec(s, f) {
                    Some(s2) => if !bit(block, s2.0 as u64) {
                        seq![(s2, None::<Square>)]
                    } else {
                        seq![]
                    },
                    None => seq![],
                }
            } else {
                seq![]
            }
        },
    }
}

/// A pawn's capture along `dir`: onto an opponent's piece, or onto the en-passant square, where
/// the pawn behind it is the one taken.
pub open spec fn pawn_capture(p: Position, opp: u64, from: Square, dir: Direction) -> Seq<
    (Square, Option<Square>),
> {
    match step_spec(from, dir) {
        None => seq![],
        Some(s) => if bit(opp, s.0 as u64) {
            seq![(s, Some(s))]
        } else if p.en_passant == Some(s) {
            seq![(s, Some(behind(p.turn, s)))]
        } else {
            seq![]
        },
    }
}

pub open spec fn pawn_targets(p: Position, our: u64, opp: u64, from: Square) -> Seq<
    (Square, Option<Square>),
> {
    pushes(p, our | opp, from) + pawn_capture(p, opp, from, capture_dirs(p.turn).0) + pawn_capture(
        p,
        opp,
        from,
        capture_dirs(p.turn).1,
    )
}

/// A pawn move with the given promotion.
pub open spec fn pawn_move(from: Square, to: Square, capture: Option<Square>, promotion: Option<Piece>) -> Move {
    Move { piece: Piece::Pawn, from, to, capture, castle: None, promotion }
}

/// The four promotions of one pawn move, in the order Bishop, Knight, Rook, Queen.
pub open spec fn promotions(from: Square, to: Square, capture: Option<Square>) -> Seq<Move> {
    seq![
        pawn_move(from, to, capture, Some(Piece::Bishop)),
        pawn_move(from, to, capture, Some(Piece::Knight)),
        pawn_move(from, to, capture, Some(Piece::Rook)),
        pawn_move(from, to, capture, Some(Piece::Queen)),
    ]
}

/// The moves of one pawn destination: four promotions on the farthest row, else one move.
pub open spec fn expand_one(side: Sides, from: Square, t: (Square, Option<Square>)) -> Seq<Move> {
    if t.0.row() == last_row(side) {
        promotions(from, t.0, t.1)
    } else {
        seq![pawn_move(from, t.0, t.1, None)]
    }
}

pub open spec fn expand(side: Sides, from: Square, ts: Seq<(Square, Option<Square>)>) -> Seq<Move>
    decreases ts.len(),
{
    if ts.len() == 0 {
        seq![]
    } else {
        expand(side, from, ts.drop_last()) + expand_one(side, from, ts.last())
    }
}

pub open spec fn pawn_spec(p: Position, our: u64, opp: u64, from: Square) -> Seq<Move> {
    expand(p.turn, from, pawn_targets(p, our, opp, from))
}

/// The moves of a piece of type `piece` of the side to move standing on `from`.
pub open spec fn piece_moves(p: Position, our: u64, opp: u64, piece: Piece, from: Square) -> Seq<
    Move,
> {
    match piece {
        Piece::Pawn => pawn_spec(p, our, opp, from),
        Piece::Rook => rays(our, opp, Piece::Rook, from, rook_dirs()),
        Piece::Knight => knight_spec(our, opp, from),
        Piece::Bishop => rays(our, opp, Piece::Bishop, from, bishop_dirs()),
        Piece::Queen => rays(our, opp, Piece::Queen, from, all_dirs()),
        Piece::King => hops(our, opp, Piece::King, from, all_dirs()),
    }
}

/// The moves of the pieces of type `piece` on the squares below `n`, square by square.
pub open spec fn squares_upto(p: Position, our: u64, opp: u64, piece: Piece, n: int) -> Seq<Move>
    decreases n,
{
    if n <= 0 {
        seq![]
    } else {
        squares_upto(p, our, opp, piece, n - 1) + if p.occupies(
            p.turn,
            piece,
            Square((n - 1) as u8),
        ) {
            piece_moves(p, our, opp, piece, Square((n - 1) as u8))
        } else {
            seq![]
        }
    }
}

/// The moves of the first `k` piece types of the canonical order.
pub open spec fn pieces_upto(p: Position, our: u64, opp: u64, k: int) -> Seq<Move>
    decreases k,
{
    if k <= 0 {
        seq![]
    } else {
        pieces_upto(p, our, opp, k - 1) + squares_upto(p, our, opp, piece_at(k - 1), 64)
    }
}

/// The king's move of a castle.
pub open spec fn castle_move(c: Castle) -> Move {
    let (from, to) = match c {
        Castle::WhiteQueen => (60u8, 58u8),
        Castle::WhiteKing => (60u8, 62u8),
        Castle::BlackQueen => (4u8, 2u8),
        Castle::BlackKing => (4u8, 6u8),
    };
    Move {
        piece: Piece::King,
        from: Square(from),
        to: Square(to),
        capture: None,
        castle: Some(c),
        promotion: None,
    }
}

/// The castles of the side to move whose right is held and whose squares between king and
/// rook are empty, queenside first. Whether the king stands on, crosses or lands on an attacked
/// square is not looked at here, nor by the legality filter before the king has landed.
pub open spec fn castles(p: Position, block: u64) -> Seq<Move> {
    match p.turn {
        Sides::White => (if p.has_right(Castle::WhiteQueen) && !bit(block, 57) && !bit(block, 58)
            && !bit(block, 59) {
            seq![castle_move(Castle::WhiteQueen)]
        } else {
            seq![]
        }) + (if p.has_right(Castle::WhiteKing) && !bit(block, 61) && !bit(block, 62) {
            seq![castle_move(Castle::WhiteKing)]
        } else {
            seq![]
        }),
        Sides::Black => (if p.has_right(Castle::BlackQueen) && !bit(block, 1) && !bit(block, 2)
            && !bit(block, 3) {
            seq![castle_move(Castle::BlackQueen)]
        } else {
            seq![]
        }) + (if p.has_right(Castle::BlackKing) && !bit(block, 5) && !bit(block, 6) {
            seq![castle_move(Castle::BlackKing)]
        } else {
            seq![]
        }),
    }
}

/// Every pseudo-legal move of a position, in the canonical order: by piece type, then by
/// square, then the castles.
pub open spec fn pseudo_spec(p: Position) -> Seq<Move> {
    pieces_upto(p, ours(p), theirs(p), 6) + castles(p, ours(p) | theirs(p))
}

/// `b` with the board of (`side`, `piece`) flipped at `sq`.
pub open spec fn flip_in(b: Seq<BitBoard>, side: Sides, piece: Piece, sq: Square) -> Seq<BitBoard> {
    b.update(slot(side, piece), b[slot(side, piece)].flipped(sq))
}

/// `b` with `sq` cleared on the first `k` boards of `side`.
pub open spec fn clear_upto(b: Seq<BitBoard>, side: Sides, sq: Square, k: int) -> Seq<BitBoard> {
    Seq::new(
        b.len(),
        |i: int|
            if side.ord() * 6 <= i < side.ord() * 6 + k {
                BitBoard(b[i].0 & !(1u64 << sq.0))
            } else {
                b[i]
            },
    )
}

/// `b` with `sq` cleared on every board of `side`.
pub open spec fn clear_side(b: Seq<BitBoard>, side: Sides, sq: Square) -> Seq<BitBoard> {
    clear_upto(b, side, sq, 6)
}

/// Where the rook of a castle starts.
pub open spec fn rook_home(c: Castle) -> Square {
    match c {
        Castle::WhiteQueen => Square(56),
        Castle::WhiteKing => Square(63),
        Castle::BlackQueen => Square(0),
        Castle::BlackKing => Square(7),
    }
}

/// Where the rook of a castle ends.
pub open spec fn rook_dest(c: Castle) -> Square {
    match c {
        Castle::WhiteQueen => Square(59),
        Castle::WhiteKing => Square(61),
        Castle::BlackQueen => Square(3),
        Castle::BlackKing => Square(5),
    }
}

/// The boards after a move: the piece goes from `from` to `to`, the taken piece leaves, the
/// castling rook moves, and a promoted pawn becomes its new piece.
pub open spec fn apply_boards(p: Position, m: Move) -> Seq<BitBoard> {
    let side = p.turn;
    let moved = flip_in(flip_in(p.boards, side, m.piece, m.from), side, m.piece, m.to);
    let taken = match m.capture {
        Some(s) => clear_side(moved, side.other(), s),
        None => moved,
    };
    let castled = match m.castle {
        Some(c) => flip_in(
            flip_in(taken, side, Piece::Rook, rook_home(c)),
            side,
            Piece::Rook,
            rook_dest(c),
        ),
        None => taken,
    };
    match m.promotion {
        Some(q) => flip_in(flip_in(castled, side, Piece::Pawn, m.to), side, q, m.to),
        None => castled,
    }
}

/// The right that a rook of `side` leaving `from` gives up, if any.
pub open spec fn rook_right(side: Sides, from: Square) -> u8 {
    if side == Sides::White && from.0 == 56 {
        WHITE_QUEEN
    } else if side == Sides::White && from.0 == 63 {
        WHITE_KING
    } else if side == Sides::Black && from.0 == 0 {
        BLACK_QUEEN
    } else if side == Sides::Black && from.0 == 7 {
        BLACK_KING
    } else {
        0
    }
}

/// The rights after a move on boards `b`: a king move drops both of its side's rights, a rook
/// leaving its corner drops that corner's, and a corner without its rook drops its right.
pub open spec fn rights_after(p: Position, m: Move, b: Seq<BitBoard>) -> u8 {
    let r0 = p.castle_rights;
    let r1 = if m.piece == Piece::King {
        r0 & match p.turn {
            Sides::White => BLACK_KING | BLACK_QUEEN,
            Sides::Black => WHITE_KING | WHITE_QUEEN,
        }
    } else {
        r0
    };
    let r2 = if m.piece == Piece::Rook {
        r1 & (15u8 ^ rook_right(p.turn, m.from))
    } else {
        r1
    };
    let white_rooks = b[slot(Sides::White, Piece::Rook)];
    let black_rooks = b[slot(Sides::Black, Piece::Rook)];
    let r3 = if !white_rooks.has(Square(56)) {
        r2 & (15u8 ^ WHITE_QUEEN)
    } else {
        r2
    };
    let r4 = if !white_rooks.has(Square(63)) {
        r3 & (15u8 ^ WHITE_KING)
    } else {
        r3
    };
    let r5 = if !black_rooks.has(Square(0)) {
        r4 & (15u8 ^ BLACK_QUEEN)
    } else {
        r4
    };
    if !black_rooks.has(Square(7)) {
        r5 & (15u8 ^ BLACK_KING)
    } else {
        r5
    }
}

/// The en-passant square after a move: the square a pawn passed over on a two-rank advance.
pub open spec fn en_passant_after(p: Position, m: Move) -> Option<Square> {
    if m.piece == Piece::Pawn && p.turn == Sides::White && m.from.0 == m.to.0 + 16 {
        Some(Square((m.from.0 - 8) as u8))
    } else if m.piece == Piece::Pawn && p.turn == Sides::Black && m.to.0 == m.from.0 + 16 {
        Some(Square((m.from.0 + 8) as u8))
    } else {
        None
    }
}

/// The position after a move.
pub open spec fn apply_spec(p: Position, m: Move) -> Position {
    let b = apply_boards(p, m);
    Position {
        boards: b,
        turn: p.turn.other(),
        castle_rights: rights_after(p, m, b),
        en_passant: en_passant_after(p, m),
    }
}

/// Every move of `s` stands on the board.
pub open spec fn all_valid(s: Seq<Move>) -> bool {
    forall|i: int| 0 <= i < s.len() ==> (#[trigger] s[i]).valid()
}

proof fn lemma_all_valid_add(a: Seq<Move>, b: Seq<Move>)
    requires
        all_valid(a),
        all_valid(b),
    ensures
        all_valid(a + b),
{
    assert forall|i: int| 0 <= i < (a + b).len() implies (#[trigger] (a + b)[i]).valid() by {
        if i < a.len() {
            assert((a + b)[i] == a[i]);
        } else {
            assert((a + b)[i] == b[i - a.len()]);
        }
    }
}

proof fn lemma_ray_valid(our: u64, opp: u64, piece: Piece, from: Square, cur: Square, dir: Direction)
    requires
        from.valid(),
    ensures
        all_valid(ray(our, opp, piece, from, cur, dir)),
    decreases room(cur, dir),
{
    crate::board::lemma_step_room(cur, dir);
    if let Some(n) = step_spec(cur, dir) {
        if !bit(opp, n.0 as u64) && !bit(our, n.0 as u64) {
            lemma_ray_valid(our, opp, piece, from, n, dir);
            lemma_all_valid_add(seq![plain(piece, from, n, None)], ray(our, opp, piece, from, n, dir));
        }
    }
}

proof fn lemma_rays_valid(our: u64, opp: u64, piece: Piece, from: Square, dirs: Seq<Direction>)
    requires
        from.valid(),
    ensures
        all_valid(rays(our, opp, piece, from, dirs)),
    decreases dirs.len(),
{
    if dirs.len() > 0 {
        lemma_rays_valid(our, opp, piece, from, dirs.drop_last());
        lemma_ray_valid(our, opp, piece, from, from, dirs.last());
        lemma_all_valid_add(
            rays(our, opp, piece, from, dirs.drop_last()),
            ray(our, opp, piece, from, from, dirs.last()),
        );
    }
}

proof fn lemma_hops_valid(our: u64, opp: u64, piece: Piece, from: Square, dirs: Seq<Direction>)
    requires
        from.valid(),
    ensures
        all_valid(hops(our, opp, piece, from, dirs)),
    decreases dirs.len(),
{
    if dirs.len() > 0 {
        lemma_hops_valid(our, opp, piece, from, dirs.drop_last());
        crate::board::lemma_step_room(from, dirs.last());
        lemma_all_valid_add(
            hops(our, opp, piece, from, dirs.drop_last()),
            hop(our, opp, piece, from, step_spec(from, dirs.last())),
        );
    }
}

proof fn lemma_leg_valid(our: u64, opp: u64, from: Square, diag: Direction, orth: Direction)
    requires
        from.valid(),
    ensures
        all_valid(hop(our, opp, Piece::Knight, from, leg(from, diag, orth))),
{
    crate::board::lemma_step_room(from, diag);
    if let Some(m) = step_spec(from, diag) {
        crate::board::lemma_step_room(m, orth);
    }
}

proof fn lemma_knight_valid(our: u64, opp: u64, from: Square)
    requires
        from.valid(),
    ensures
        all_valid(knight_spec(our, opp, from)),
{
    let k = Piece::Knight;
    let legs = seq![
        (Direction::NE, Direction::N),
        (Direction::NE, Direction::E),
        (Direction::NW, Direction::N),
        (Direction::NW, Direction::W),
        (Direction::SE, Direction::S),
        (Direction::SE, Direction::E),
        (Direction::SW, Direction::S),
        (Direction::SW, Direction::W),
    ];
    let h = |i: int| hop(our, opp, k, from, leg(from, legs[i].0, legs[i].1));
    lemma_leg_valid(our, opp, from, legs[0].0, legs[0].1);
    let mut acc = h(0);
    lemma_leg_valid(our, opp, from, legs[1].0, legs[1].1);
    lemma_all_valid_add(acc, h(1));
    acc = acc + h(1);
    lemma_leg_valid(our, opp, from, legs[2].0, legs[2].1);
    lemma_all_valid_add(acc, h(2));
    acc = acc + h(2);
    lemma_leg_valid(our, opp, from, legs[3].0, legs[3].1);
    lemma_all_valid_add(acc, h(3));
    acc = acc + h(3);
    lemma_leg_valid(our, opp, from, legs[4].0, legs[4].1);
    lemma_all_valid_add(acc, h(4));
    acc = acc + h(4);
    lemma_leg_valid(our, opp, from, legs[5].0, legs[5].1);
    lemma_all_valid_add(acc, h(5));
    acc = acc + h(5);
    lemma_leg_valid(our, opp, from, legs[6].0, legs[6].1);
    lemma_all_valid_add(acc, h(6));
    acc = acc + h(6);
    lemma_leg_valid(our, opp, from, legs[7].0, legs[7].1);
    lemma_all_valid_add(acc, h(7));
    acc = acc + h(7);
    assert(acc == knight_spec(our, opp, from));
}

proof fn lemma_expand_valid(side: Sides, from: Square, ts: Seq<(Square, Option<Square>)>)
    requires
        from.valid(),
        forall|i: int|
            0 <= i < ts.len() ==> (#[trigger] ts[i]).0.valid() && (ts[i].1 matches Some(c)
                ==> c.valid()),
    ensures
        all_valid(expand(side, from, ts)),
    decreases ts.len(),
{
    if ts.len() > 0 {
        lemma_expand_valid(side, from, ts.drop_last());
        assert(ts.last() == ts[ts.len() - 1]);
        lemma_all_valid_add(expand(side, from, ts.drop_last()), expand_one(side, from, ts.last()));
    }
}

proof fn lemma_pawn_valid(p: Position, our: u64, opp: u64, from: Square)
    requires
        from.valid(),
    ensures
        all_valid(pawn_spec(p, our, opp, from)),
{
    let f = forward(p.turn);
    crate::board::lemma_step_room(from, f);
    if let Some(s) = step_spec(from, f) {
        crate::board::lemma_step_room(s, f);
    }
    crate::board::lemma_step_room(from, capture_dirs(p.turn).0);
    crate::board::lemma_step_room(from, capture_dirs(p.turn).1);
    let ts = pawn_targets(p, our, opp, from);
    assert forall|i: int| 0 <= i < ts.len() implies (#[trigger] ts[i]).0.valid() && (ts[i].1 matches Some(c)
        ==> c.valid()) by {
        let a = pushes(p, our | opp, from);
        let b = pawn_capture(p, opp, from, capture_dirs(p.turn).0);
        let c = pawn_capture(p, opp, from, capture_dirs(p.turn).1);
        assert(ts == a + b + c);
        if i < a.len() {
            assert(ts[i] == a[i]);
        } else if i < a.len() + b.len() {
            assert(ts[i] == b[i - a.len()]);
        } else {
            assert(ts[i] == c[i - a.len() - b.len()]);
        }
    }
    lemma_expand_valid(p.turn, from, ts);
}

proof fn lemma_piece_moves_valid(p: Position, our: u64, opp: u64, piece: Piece, from: Square)
    requires
        from.valid(),
    ensures
        all_valid(piece_moves(p, our, opp, piece, from)),
{
    match piece {
        Piece::Pawn => lemma_pawn_valid(p, our, opp, from),
        Piece::Rook => lemma_rays_valid(our, opp, piece, from, rook_dirs()),
        Piece::Knight => lemma_knight_valid(our, opp, from),
        Piece::Bishop => lemma_rays_valid(our, opp, piece, from, bishop_dirs()),
        Piece::Queen => lemma_rays_valid(our, opp, piece, from, all_dirs()),
        Piece::King => lemma_hops_valid(our, opp, piece, from, all_dirs()),
    }
}

proof fn lemma_squares_valid(p: Position, our: u64, opp: u64, piece: Piece, n: int)
    requires
        n <= 64,
    ensures
        all_valid(squares_upto(p, our, opp, piece, n)),
    decreases n,
{
    if n > 0 {
        lemma_squares_valid(p, our, opp, piece, n - 1);
        lemma_piece_moves_valid(p, our, opp, piece, Square((n - 1) as u8));
        lemma_all_valid_add(
            squares_upto(p, our, opp, piece, n - 1),
            if p.occupies(p.turn, piece, Square((n - 1) as u8)) {
                piece_moves(p, our, opp, piece, Square((n - 1) as u8))
            } else {
                seq![]
            },
        );
    }
}

proof fn lemma_pieces_valid(p: Position, our: u64, opp: u64, k: int)
    ensures
        all_valid(pieces_upto(p, our, opp, k)),
    decreases k,
{
    if k > 0 {
        lemma_pieces_valid(p, our, opp, k - 1);
        lemma_squares_valid(p, our, opp, piece_at(k - 1), 64);
        lemma_all_valid_add(
            pieces_upto(p, our, opp, k - 1),
            squares_upto(p, our, opp, piece_at(k - 1), 64),
        );
    }
}

/// Every generated move stands on the board.
pub proof fn lemma_pseudo_valid(p: Position)
    ensures
        all_valid(pseudo_spec(p)),
{
    lemma_pieces_valid(p, ours(p), theirs(p), 6);
    let c = castles(p, ours(p) | theirs(p));
    assert(all_valid(c));
    lemma_all_valid_add(pieces_upto(p, ours(p), theirs(p), 6), c);
}

/// Whether `side` still has a king on the board.
pub open spec fn king_alive(p: Position, side: Sides) -> bool {
    p.board(side, Piece::King).0 != 0
}

/// A move is legal when no pseudo-legal reply to it captures the mover's king.
pub open spec fn legal(p: Position, m: Move) -> bool {
    let n = apply_spec(p, m);
    forall|i: int|
        0 <= i < pseudo_spec(n).len() ==> king_alive(
            #[trigger] apply_spec(n, pseudo_spec(n)[i]),
            p.turn,
        )
}

/// The legal moves among `ms`, in their order.
pub open spec fn legal_among(p: Position, ms: Seq<Move>) -> Seq<Move>
    decreases ms.len(),
{
    if ms.len() == 0 {
        seq![]
    } else {
        legal_among(p, ms.drop_last()) + if legal(p, ms.last()) {
            seq![ms.last()]
        } else {
            seq![]
        }
    }
}

/// Every legal move of a position, in the order of generation.
pub open spec fn legal_spec(p: Position) -> Seq<Move> {
    legal_among(p, pseudo_spec(p))
}

proof fn lemma_legal_among_valid(p: Position, ms: Seq<Move>)
    requires
        all_valid(ms),
    ensures
        all_valid(legal_among(p, ms)),
    decreases ms.len(),
{
    if ms.len() > 0 {
        lemma_legal_among_valid(p, ms.drop_last());
        assert(ms.last() == ms[ms.len() - 1]);
        lemma_all_valid_add(
            legal_among(p, ms.drop_last()),
            if legal(p, ms.last()) {
                seq![ms.last()]
            } else {
                seq![]
            },
        );
    }
}

/// Every legal move stands on the board.
pub proof fn lemma_legal_valid(p: Position)
    ensures
        all_valid(legal_spec(p)),
{
    lemma_pseudo_valid(p);
    lemma_legal_among_valid(p, pseudo_spec(p));
}

/// The number of positions reached from `p` by `depth` legal moves, counted along every path.
pub open spec fn perft_spec(p: Position, depth: nat) -> nat
    decreases depth, 0nat,
{
    if depth == 0 {
        1
    } else {
        perft_sum(p, legal_spec(p), (depth - 1) as nat)
    }
}

/// The sum of `perft_spec` at `depth` over the positions after each of `ms`.
pub open spec fn perft_sum(p: Position, ms: Seq<Move>, depth: nat) -> nat
    decreases depth, ms.len(),
{
    if ms.len() == 0 {
        0
    } else {
        perft_sum(p, ms.drop_last(), depth) + perft_spec(apply_spec(p, ms.last()), depth)
    }
}

proof fn lemma_perft_sum_prefix(p: Position, ms: Seq<Move>, depth: nat, i: int)
    requires
        0 <= i <= ms.len(),
    ensures
        perft_sum(p, ms.take(i), depth) <= perft_sum(p, ms, depth),
    decreases ms.len(),
{
    if i < ms.len() {
        lemma_perft_sum_prefix(p, ms.drop_last(), depth, i);
        assert(ms.drop_last().take(i) =~= ms.take(i));
    } else {
        assert(ms.take(i) =~= ms);
    }
}

/// The derived boards of a position: the mover's squares, the opponent's, and both.
struct Masks {
    our_board: BitBoard,
    opp_board: BitBoard,
    block_board: BitBoard,
}

impl Masks {
    spec fn of(self, p: Position) -> bool {
        &&& self.our_board.0 == ours(p)
        &&& self.opp_board.0 == theirs(p)
        &&& self.block_board.0 == ours(p) | theirs(p)
    }
}

impl GameState {
    fn pseudo_moves_dirs(&self, square: Square, piece: Piece, dirs: &[Direction], masks: &Masks) -> (r:
        Vec<Move>)
        requires
            square.valid(),
            masks.of(self@),
        ensures
            r@ == rays(ours(self@), theirs(self@), piece, square, dirs@),
    {
        let ghost our = ours(self@);
        let ghost opp = theirs(self@);
        let mut moves: Vec<Move> = Vec::new();
        let mut i: usize = 0;
        while i < dirs.len()
            invariant
                i <= dirs@.len(),
                square.valid(),
                masks.of(self@),
                our == ours(self@),
                opp == theirs(self@),
                moves@ == rays(our, opp, piece, square, dirs@.take(i as int)),
            decreases dirs@.len() - i,
        {
            let dir = dirs[i];
            let ghost target = rays(our, opp, piece, square, dirs@.take(i as int + 1));
            assert(dirs@.take(i as int + 1).drop_last() =~= dirs@.take(i as int));
            let mut curr = square;
            loop
                invariant_except_break
                    moves@ + ray(our, opp, piece, square, curr, dir) == target,
                invariant
                    curr.valid(),
                    masks.of(self@),
                    our == ours(self@),
                    opp == theirs(self@),
                ensures
                    moves@ == target,
                decreases room(curr, dir),
            {
                proof {
                    crate::board::lemma_step_room(curr, dir);
                }
                match curr.step(dir) {
                    None => {
                        assert(moves@ + seq![] =~= moves@);
                        break ;
                    },
                    Some(next) => {
                        let ghost before = moves@;
                        let ghost rest = ray(our, opp, piece, square, next, dir);
                        curr = next;
                        if masks.opp_board.get(curr) {
                            moves.push(Move {
                                piece,
                                from: square,
                                to: curr,
                                capture: Some(curr),
                                castle: None,
                                promotion: None,
                            });
                            assert(moves@ =~= before + seq![plain(piece, square, next, Some(next))]);
                            break ;
                        }
                        if masks.our_board.get(curr) {
                            assert(moves@ =~= before + seq![]);
                            break ;
                        }
                        moves.push(
                            Move {
                                piece,
                                from: square,
                                to: curr,
                                capture: None,
                                castle: None,
                                promotion: None,
                            },
                        );
                        assert(before + (seq![plain(piece, square, next, None)] + rest) =~= moves@
                            + rest);
                    },
                }
            }
            i += 1;
        }
        assert(dirs@.take(dirs@.len() as int) =~= dirs@);
        moves
    }

    fn pseudo_moves_from(&self, piece: Piece, square: Square, masks: &Masks) -> (r: Vec<Move>)
        requires
            square.valid(),
            masks.of(self@),
        ensures
            r@ == piece_moves(self@, ours(self@), theirs(self@), piece, square),
    {
        match piece {
            Piece::Pawn => self.pseudo_moves_pawn(square, masks),
            Piece::Rook => self.pseudo_moves_rook(square, masks),
            Piece::Knight => self.pseudo_moves_knight(square, masks),
            Piece::Bishop => self.pseudo_moves_bishop(square, masks),
            Piece::Queen => self.pseudo_moves_queen(square, masks),
            Piece::King => self.pseudo_moves_king(square, masks),
        }
    }

    /// The union of the six boards of `side`.
    fn side_board(&self, side: Sides) -> (r: u64)
        ensures
            r == side_union(self@.boards, side, 6),
    {
        let mut board: u64 = 0;
        let mut k: usize = 0;
        while k < 6
            invariant
                k <= 6,
                board == side_union(self@.boards, side, k as int),
            decreases 6 - k,
        {
            board = board | self.board(side, Piece::nth(k)).0;
            k += 1;
        }
        board
    }

    /// Every pseudo-legal move of the side to move: moves that follow the pieces' rules
    /// without regard to the mover's own king.
    pub fn pseudo_moves(&self) -> (r: Vec<Move>)
        ensures
            r@ == pseudo_spec(self@),
    {
        let our_board = self.side_board(self.turn);
        let opp_board = self.side_board(self.turn.switch());
        let masks = Masks {
            our_board: BitBoard(our_board),
            opp_board: BitBoard(opp_board),
            block_board: BitBoard(our_board | opp_board),
        };
        let ghost p = self@;
        let mut moves: Vec<Move> = Vec::new();
        let mut k: usize = 0;
        while k < 6
            invariant
                k <= 6,
                masks.of(p),
                p == self@,
                our_board == ours(p),
                opp_board == theirs(p),
                moves@ == pieces_upto(p, our_board, opp_board, k as int),
            decreases 6 - k,
        {
            let piece = Piece::nth(k);
            let mut n: usize = 0;
            while n < 64
                invariant
                    n <= 64,
                    k < 6,
                    piece == piece_at(k as int),
                    masks.of(p),
                    p == self@,
                    our_board == ours(p),
                    opp_board == theirs(p),
                    moves@ == pieces_upto(p, our_board, opp_board, k as int) + squares_upto(
                        p,
                        our_board,
                        opp_board,
                        piece,
                        n as int,
                    ),
                decreases 64 - n,
            {
                let square = Square(n as u8);
                let ghost before = moves@;
                if self.board(self.turn, piece).get(square) {
                    let mut next = self.pseudo_moves_from(piece, square, &masks);
                    moves.append(&mut next);
                }
                assert(moves@ =~= pieces_upto(p, our_board, opp_board, k as int) + squares_upto(
                    p,
                    our_board,
                    opp_board,
                    piece,
                    n as int + 1,
                ));
                n += 1;
            }
            k += 1;
        }
        let block = masks.block_board;
        let ghost before = moves@;
        match self.turn {
            Sides::White => {
                if self.castle_rights & Castle::WhiteQueen.bit() != 0 && !block.get(Square(57))
                    && !block.get(Square(58)) && !block.get(Square(59)) {
                    moves.push(castle_king_move(Castle::WhiteQueen));
                }
                if self.castle_rights & Castle::WhiteKing.bit() != 0 && !block.get(Square(61))
                    && !block.get(Square(62)) {
                    moves.push(castle_king_move(Castle::WhiteKing));
                }
            },
            Sides::Black => {
                if self.castle_rights & Castle::BlackQueen.bit() != 0 && !block.get(Square(1))
                    && !block.get(Square(2)) && !block.get(Square(3)) {
                    moves.push(castle_king_move(Castle::BlackQueen));
                }
                if self.castle_rights & Castle::BlackKing.bit() != 0 && !block.get(Square(5))
                    && !block.get(Square(6)) {
                    moves.push(castle_king_move(Castle::BlackKing));
                }
            },
        }
        assert(moves@ =~= before + castles(p, our_board | opp_board));
        moves
    }

    /// The position after `mov`, which this one is left as it was.
    pub fn apply(&self, mov: Move) -> (r: Self)
        requires
            mov.valid(),
        ensures
            r@ == apply_spec(self@, mov),
    {
        let ghost p = self@;
        let mut game = *self;
        game.board_mut(self.turn, mov.piece).flip(mov.from);
        game.board_mut(self.turn, mov.piece).flip(mov.to);
        let ghost moved = game.state@;
        assert(moved == flip_in(flip_in(p.boards, p.turn, mov.piece, mov.from), p.turn, mov.piece, mov.to));
        if let Some(s) = mov.capture {
            game.clear_square(self.turn.switch(), s);
        }
        if let Some(castle) = mov.castle {
            let (home, dest) = castle_rook(castle);
            let board = game.board_mut(self.turn, Piece::Rook);
            board.flip(home);
            board.flip(dest);
        }
        if let Some(piece) = mov.promotion {
            game.board_mut(self.turn, Piece::Pawn).flip(mov.to);
            game.board_mut(self.turn, piece).flip(mov.to);
        }
        assert(game.state@ =~= apply_boards(p, mov));

        if mov.piece == Piece::King {
            game.castle_rights = game.castle_rights & match self.turn {
                Sides::White => BLACK_KING | BLACK_QUEEN,
                Sides::Black => WHITE_KING | WHITE_QUEEN,
            };
        }
        if mov.piece == Piece::Rook {
            let disable = if self.turn == Sides::White && mov.from.0 == 56 {
                WHITE_QUEEN
            } else if self.turn == Sides::White && mov.from.0 == 63 {
                WHITE_KING
            } else if self.turn == Sides::Black && mov.from.0 == 0 {
                BLACK_QUEEN
            } else if self.turn == Sides::Black && mov.from.0 == 7 {
                BLACK_KING
            } else {
                0
            };
            game.castle_rights = game.castle_rights & (15u8 ^ disable);
        }
        if !game.board(Sides::White, Piece::Rook).get(Square(56)) {
            game.castle_rights = game.castle_rights & (15u8 ^ WHITE_QUEEN);
        }
        if !game.board(Sides::White, Piece::Rook).get(Square(63)) {
            game.castle_rights = game.castle_rights & (15u8 ^ WHITE_KING);
        }
        if !game.board(Sides::Black, Piece::Rook).get(Square(0)) {
            game.castle_rights = game.castle_rights & (15u8 ^ BLACK_QUEEN);
        }
        if !game.board(Sides::Black, Piece::Rook).get(Square(7)) {
            game.castle_rights = game.castle_rights & (15u8 ^ BLACK_KING);
        }

        game.en_passant = None;
        if mov.piece == Piece::Pawn {
            if self.turn == Sides::White && mov.from.0 == mov.to.0 + 16 {
                game.en_passant = Some(Square(mov.from.0 - 8));
            } else if self.turn == Sides::Black && mov.to.0 == mov.from.0 + 16 {
                game.en_passant = Some(Square(mov.from.0 + 8));
            }
        }

        game.turn = game.turn.switch();
        game
    }

    /// Clears `sq` on every board of `side`.
    fn clear_square(&mut self, side: Sides, sq: Square)
        requires
            sq.valid(),
        ensures
            final(self).state@ == clear_side(old(self).state@, side, sq),
            final(self).turn == old(self).turn,
            final(self).castle_rights == old(self).castle_rights,
            final(self).en_passant == old(self).en_passant,
    {
        let ghost b = self.state@;
        let mut k: usize = 0;
        while k < 6
            invariant
                k <= 6,
                sq.valid(),
                b.len() == 12,
                self.state@ == clear_upto(b, side, sq, k as int),
                self.turn == old(self).turn,
                self.castle_rights == old(self).castle_rights,
                self.en_passant == old(self).en_passant,
            decreases 6 - k,
        {
            let piece = Piece::nth(k);
            let board = self.board_mut(side, piece);
            proof {
                crate::board::lemma_bit_clear(board.0, sq.0 as u64);
            }
            if board.get(sq) {
                board.flip(sq);
            }
            assert(self.state@ =~= clear_upto(b, side, sq, k as int + 1));
            k += 1;
        }
    }

    /// Whether `mov` keeps the mover's king safe: after it, no pseudo-legal reply takes the king.
    pub fn is_legal(&self, mov: Move) -> (r: bool)
        requires
            mov.valid(),
        ensures
            r == legal(self@, mov),
    {
        let next = self.apply(mov);
        let replies = next.pseudo_moves();
        proof {
            lemma_pseudo_valid(next@);
        }
        let mut i: usize = 0;
        while i < replies.len()
            invariant
                i <= replies@.len(),
                replies@ == pseudo_spec(next@),
                next@ == apply_spec(self@, mov),
                all_valid(replies@),
                forall|j: int|
                    0 <= j < i ==> king_alive(#[trigger] apply_spec(next@, replies@[j]), self.turn),
            decreases replies@.len() - i,
        {
            let after = next.apply(replies[i]);
            if after.board(self.turn, Piece::King).0 == 0 {
                return false;
            }
            i += 1;
        }
        true
    }

    /// The legal moves: the pseudo-legal moves that do not leave the mover's king to be taken.
    pub fn moves(&self) -> (r: Vec<Move>)
        ensures
            r@ == legal_spec(self@),
            all_valid(r@),
    {
        let candidates = self.pseudo_moves();
        proof {
            lemma_pseudo_valid(self@);
            lemma_legal_valid(self@);
        }
        let mut moves: Vec<Move> = Vec::new();
        let mut i: usize = 0;
        while i < candidates.len()
            invariant
                i <= candidates@.len(),
                candidates@ == pseudo_spec(self@),
                all_valid(candidates@),
                moves@ == legal_among(self@, candidates@.take(i as int)),
            decreases candidates@.len() - i,
        {
            assert(candidates@.take(i as int + 1).drop_last() =~= candidates@.take(i as int));
            let m = candidates[i];
            if self.is_legal(m) {
                moves.push(m);
            }
            assert(moves@ =~= legal_among(self@, candidates@.take(i as int + 1)));
            i += 1;
        }
        assert(candidates@.take(candidates@.len() as int) =~= candidates@);
        moves
    }

    /// The number of positions reached by `depth` legal moves, counted along every path, or
    /// `None` where that number does not fit in a `u64`.
    pub fn perft(&self, depth: u32) -> (r: Option<u64>)
        ensures
            r == (if perft_spec(self@, depth as nat) <= u64::MAX {
                Some(perft_spec(self@, depth as nat) as u64)
            } else {
                None
            }),
        decreases depth,
    {
        if depth == 0 {
            return Some(1);
        }
        let moves = self.moves();
        let ghost d = (depth - 1) as nat;
        let mut total: u64 = 0;
        let mut i: usize = 0;
        while i < moves.len()
            invariant
                i <= moves@.len(),
                depth > 0,
                d == depth - 1,
                moves@ == legal_spec(self@),
                all_valid(moves@),
                total == perft_sum(self@, moves@.take(i as int), d),
            decreases moves@.len() - i,
        {
            assert(moves@.take(i as int + 1).drop_last() =~= moves@.take(i as int));
            proof {
                lemma_perft_sum_prefix(self@, moves@, d, i as int + 1);
            }
            let child = self.apply(moves[i]).perft(depth - 1);
            match child {
                None => {
                    return None;
                },
                Some(c) => match total.checked_add(c) {
                    None => {
                        return None;
                    },
                    Some(t) => {
                        total = t;
                    },
                },
            }
            i += 1;
        }
        assert(moves@.take(moves@.len() as int) =~= moves@);
        Some(total)
    }

    /// Pushes the move onto `to`, if there is one, by the knight/king rule.
    fn push_hop(
        &self,
        from: Square,
        piece: Piece,
        to: Option<Square>,
        masks: &Masks,
        moves: &mut Vec<Move>,
    )
        requires
            masks.of(self@),
            to matches Some(t) ==> t.valid(),
        ensures
            final(moves)@ == old(moves)@ + hop(ours(self@), theirs(self@), piece, from, to),
    {
        let ghost before = moves@;
        match to {
            None => {
                assert(moves@ + seq![] =~= moves@);
            },
            Some(sq) => {
                if masks.opp_board.get(sq) {
                    moves.push(
                        Move { piece, from, to: sq, capture: Some(sq), castle: None, promotion: None },
                    );
                } else if !masks.our_board.get(sq) {
                    moves.push(
                        Move { piece, from, to: sq, capture: None, castle: None, promotion: None },
                    );
                } else {
                    assert(moves@ + seq![] =~= moves@);
                }
            },
        }
        assert(moves@ =~= before + hop(ours(self@), theirs(self@), piece, from, to));
    }
    fn pseudo_moves_rook(&self, square: Square, masks: &Masks) -> (r: Vec<Move>)
        requires
            square.valid(),
            masks.of(self@),
        ensures
            r@ == rays(ours(self@), theirs(self@), Piece::Rook, square, rook_dirs()),
    {
        let dirs = [Direction::N, Direction::S, Direction::E, Direction::W];
        assert(dirs@ =~= rook_dirs());
        self.pseudo_moves_dirs(square, Piece::Rook, &dirs, masks)
    }

    fn pseudo_moves_bishop(&self, square: Square, masks: &Masks) -> (r: Vec<Move>)
        requires
            square.valid(),
            masks.of(self@),
        ensures
            r@ == rays(ours(self@), theirs(self@), Piece::Bishop, square, bishop_dirs()),
    {
        let dirs = [Direction::NE, Direction::SE, Direction::NW, Direction::SW];
        assert(dirs@ =~= bishop_dirs());
        self.pseudo_moves_dirs(square, Piece::Bishop, &dirs, masks)
    }

    fn pseudo_moves_queen(&self, square: Square, masks: &Masks) -> (r: Vec<Move>)
        requires
            square.valid(),
            masks.of(self@),
        ensures
            r@ == rays(ours(self@), theirs(self@), Piece::Queen, square, all_dirs()),
    {
        let dirs = [
            Direction::N,
            Direction::S,
            Direction::E,
            Direction::W,
            Direction::NE,
            Direction::SE,
            Direction::NW,
            Direction::SW,
        ];
        assert(dirs@ =~= all_dirs());
        self.pseudo_moves_dirs(square, Piece::Queen, &dirs, masks)
    }

    fn pseudo_moves_king(&self, square: Square, masks: &Masks) -> (r: Vec<Move>)
        requires
            square.valid(),
            masks.of(self@),
        ensures
            r@ == hops(ours(self@), theirs(self@), Piece::King, square, all_dirs()),
    {
        let dirs = [
            Direction::N,
            Direction::S,
            Direction::E,
            Direction::W,
            Direction::NE,
            Direction::SE,
            Direction::NW,
            Direction::SW,
        ];
        assert(dirs@ =~= all_dirs());
        let ghost our = ours(self@);
        let ghost opp = theirs(self@);
        let mut moves: Vec<Move> = Vec::new();
        let mut i: usize = 0;
        while i < 8
            invariant
                i <= 8,
                dirs@ == all_dirs(),
                masks.of(self@),
                our == ours(self@),
                opp == theirs(self@),
                moves@ == hops(our, opp, Piece::King, square, dirs@.take(i as int)),
            decreases 8 - i,
        {
            assert(dirs@.take(i as int + 1).drop_last() =~= dirs@.take(i as int));
            let to = square.step(dirs[i]);
            self.push_hop(square, Piece::King, to, masks, &mut moves);
            i += 1;
        }
        assert(dirs@.take(8) =~= dirs@);
        moves
    }

    fn pseudo_moves_knight(&self, square: Square, masks: &Masks) -> (r: Vec<Move>)
        requires
            square.valid(),
            masks.of(self@),
        ensures
            r@ == knight_spec(ours(self@), theirs(self@), square),
    {
        let mut moves: Vec<Move> = Vec::new();
        let k = Piece::Knight;
        self.push_hop(square, k, knight_leg(square, Direction::NE, Direction::N), masks, &mut moves);
        self.push_hop(square, k, knight_leg(square, Direction::NE, Direction::E), masks, &mut moves);
        self.push_hop(square, k, knight_leg(square, Direction::NW, Direction::N), masks, &mut moves);
        self.push_hop(square, k, knight_leg(square, Direction::NW, Direction::W), masks, &mut moves);
        self.push_hop(square, k, knight_leg(square, Direction::SE, Direction::S), masks, &mut moves);
        self.push_hop(square, k, knight_leg(square, Direction::SE, Direction::E), masks, &mut moves);
        self.push_hop(square, k, knight_leg(square, Direction::SW, Direction::S), masks, &mut moves);
        self.push_hop(square, k, knight_leg(square, Direction::SW, Direction::W), masks, &mut moves);
        assert(moves@ =~= knight_spec(ours(self@), theirs(self@), square));
        moves
    }

    /// The destinations of a pawn of the side to move on `square`, with the square each takes.
    fn pawn_targets(&self, square: Square, masks: &Masks) -> (r: Vec<(Square, Option<Square>)>)
        requires
            square.valid(),
            masks.of(self@),
        ensures
            r@ == pawn_targets(self@, ours(self@), theirs(self@), square),
    {
        let ghost p = self@;
        let mut moves: Vec<(Square, Option<Square>)> = Vec::new();
        let white = match self.turn {
            Sides::White => true,
            Sides::Black => false,
        };
        let fwd = if white {
            Direction::N
        } else {
            Direction::S
        };
        let start: u8 = if white {
            6
        } else {
            1
        };
        if let Some(s) = square.step(fwd) {
            if !masks.block_board.get(s) {
                moves.push((s, None));
                if square.0 / 8 == start {
                    if let Some(s2) = s.step(fwd) {
                        if !masks.block_board.get(s2) {
                            moves.push((s2, None));
                        }
                    }
                }
            }
        }
        assert(moves@ =~= pushes(p, ours(p) | theirs(p), square));
        let (d1, d2) = if white {
            (Direction::NW, Direction::NE)
        } else {
            (Direction::SW, Direction::SE)
        };
        self.push_pawn_capture(square, d1, masks, &mut moves);
        self.push_pawn_capture(square, d2, masks, &mut moves);
        assert(moves@ =~= pawn_targets(p, ours(p), theirs(p), square));
        moves
    }

    fn push_pawn_capture(
        &self,
        square: Square,
        dir: Direction,
        masks: &Masks,
        moves: &mut Vec<(Square, Option<Square>)>,
    )
        requires
            square.valid(),
            masks.of(self@),
            dir == capture_dirs(self.turn).0 || dir == capture_dirs(self.turn).1,
        ensures
            final(moves)@ == old(moves)@ + pawn_capture(self@, theirs(self@), square, dir),
    {
        let ghost before = moves@;
        if let Some(s) = square.step(dir) {
            if masks.opp_board.get(s) {
                moves.push((s, Some(s)));
            } else {
                let en_passant = match self.en_passant {
                    Some(e) => e == s,
                    None => false,
                };
                if en_passant {
                    let taken = match self.turn {
                        Sides::White => Square(s.0 + 8),
                        Sides::Black => Square(s.0 - 8),
                    };
                    moves.push((s, Some(taken)));
                }
            }
        }
        assert(moves@ =~= before + pawn_capture(self@, theirs(self@), square, dir));
    }

    fn pseudo_moves_pawn(&self, square: Square, masks: &Masks) -> (r: Vec<Move>)
        requires
            square.valid(),
            masks.of(self@),
        ensures
            r@ == pawn_spec(self@, ours(self@), theirs(self@), square),
    {
        let targets = self.pawn_targets(square, masks);
        let last: u8 = match self.turn {
            Sides::White => 0,
            Sides::Black => 7,
        };
        let mut moves: Vec<Move> = Vec::new();
        let mut i: usize = 0;
        while i < targets.len()
            invariant
                i <= targets@.len(),
                last == last_row(self.turn),
                moves@ == expand(self.turn, square, targets@.take(i as int)),
            decreases targets@.len() - i,
        {
            assert(targets@.take(i as int + 1).drop_last() =~= targets@.take(i as int));
            let (to, capture) = targets[i];
            let ghost before = moves@;
            if to.0 / 8 == last {
                moves.push(pawn_promotion(square, to, capture, Piece::Bishop));
                moves.push(pawn_promotion(square, to, capture, Piece::Knight));
                moves.push(pawn_promotion(square, to, capture, Piece::Rook));
                moves.push(pawn_promotion(square, to, capture, Piece::Queen));
            } else {
                moves.push(
                    Move { piece: Piece::Pawn, from: square, to, capture, castle: None, promotion: None },
                );
            }
            assert(moves@ =~= before + expand_one(self.turn, square, (to, capture)));
            i += 1;
        }
        assert(targets@.take(targets@.len() as int) =~= targets@);
        moves
    }
}

} // verus!

verus! {

fn knight_leg(from: Square, diag: Direction, orth: Direction) -> (r: Option<Square>)
    ensures
        r == leg(from, diag, orth),
        r matches Some(t) ==> t.valid(),
{
    match from.step(diag) {
        None => None,
        Some(m) => m.step(orth),
    }
}

fn pawn_promotion(from: Square, to: Square, capture: Option<Square>, piece: Piece) -> (r: Move)
    ensures
        r == pawn_move(from, to, capture, Some(piece)),
{
    Move { piece: Piece::Pawn, from, to, capture, castle: None, promotion: Some(piece) }
}

} // verus!

verus! {

fn castle_king_move(c: Castle) -> (r: Move)
    ensures
        r == castle_move(c),
{
    let (from, to) = match c {
        Castle::WhiteQueen => (60u8, 58u8),
        Castle::WhiteKing => (60u8, 62u8),
        Castle::BlackQueen => (4u8, 2u8),
        Castle::BlackKing => (4u8, 6u8),
    };
    Move {
        piece: Piece::King,
        from: Square(from),
        to: Square(to),
        capture: None,
        castle: Some(c),
        promotion: None,
    }
}

} // verus!

verus! {

fn castle_rook(c: Castle) -> (r: (Square, Square))
    ensures
        r == (rook_home(c), rook_dest(c)),
{
    match c {
        Castle::WhiteQueen => (Square(56), Square(59)),
        Castle::WhiteKing => (Square(63), Square(61)),
        Castle::BlackQueen => (Square(0), Square(3)),
        Castle::BlackKing => (Square(7), Square(5)),
    }
}

} // verus!

verus! {

pub open spec fn piece_name(piece: Piece) -> Seq<char> {
    match piece {
        Piece::Pawn => "Pawn"@,
        Piece::Rook => "Rook"@,
        Piece::Knight => "Knight"@,
        Piece::Bishop => "Bishop"@,
        Piece::Queen => "Queen"@,
        Piece::King => "King"@,
    }
}

pub open spec fn castle_phrase(c: Castle) -> Seq<char> {
    match c {
        Castle::WhiteQueen => "White Queenside Castle"@,
        Castle::WhiteKing => "White Kingside Castle"@,
        Castle::BlackQueen => "Black Queenside Castle"@,
        Castle::BlackKing => "Black Kingside Castle"@,
    }
}

/// How a move reads: its castle's phrase, or "<piece> <from> to <to>" with " with capture" and
/// " with promotion" added where they apply.
pub open spec fn describe_spec(m: Move) -> Seq<char> {
    match m.castle {
        Some(c) => castle_phrase(c),
        None => piece_name(m.piece) + " "@ + square_name(m.from) + " to "@ + square_name(m.to) + (
        if m.capture is Some {
            " with capture"@
        } else {
            ""@
        }) + (if m.promotion is Some {
            " with promotion"@
        } else {
            ""@
        }),
    }
}

fn piece_text(piece: Piece) -> (r: &'static str)
    ensures
        r@ == piece_name(piece),
{
    match piece {
        Piece::Pawn => "Pawn",
        Piece::Rook => "Rook",
        Piece::Knight => "Knight",
        Piece::Bishop => "Bishop",
        Piece::Queen => "Queen",
        Piece::King => "King",
    }
}

fn castle_text(c: Castle) -> (r: &'static str)
    ensures
        r@ == castle_phrase(c),
{
    match c {
        Castle::WhiteQueen => "White Queenside Castle",
        Castle::WhiteKing => "White Kingside Castle",
        Castle::BlackQueen => "Black Queenside Castle",
        Castle::BlackKing => "Black Kingside Castle",
    }
}

impl Move {
    /// The move in words, for logs.
    pub fn describe(&self) -> (r: String)
        requires
            self.valid(),
        ensures
            r@ == describe_spec(*self),
    {
        if let Some(c) = self.castle {
            return String::from_str(castle_text(c));
        }
        let mut msg = String::from_str(piece_text(self.piece));
        msg.append(" ");
        msg.append(file_text(self.from));
        msg.append(rank_text(self.from));
        msg.append(" to ");
        msg.append(file_text(self.to));
        msg.append(rank_text(self.to));
        if self.capture.is_some() {
            msg.append(" with capture");
        } else {
            msg.append("");
        }
        if self.promotion.is_some() {
            msg.append(" with promotion");
        } else {
            msg.append("");
        }
        assert(msg@ =~= describe_spec(*self));
        msg
    }
}

} // verus!
