use vstd::prelude::*;
use crate::board::{bit, lemma_bit_flip, lemma_bit_or, slot, BitBoard, Piece, Position, Sides, Square};
use crate::moves::{
    clear_side, flip_in, side_union, ours, theirs, castle_move, rook_dest, rook_home, hop,
    ray, rays, hops, leg, knight_spec, pushes, pawn_capture, pawn_targets, expand, expand_one,
    pawn_move, pawn_spec, piece_moves, squares_upto, pieces_upto, castles, pseudo_spec, forward,
    capture_dirs, last_row, rook_dirs, bishop_dirs, all_dirs, Move,
};
use crate::laws::{double_push, play};
use crate::moves::{
    apply_spec, apply_boards, rights_after, rook_right, en_passant_after, legal, legal_among,
    legal_spec, king_alive,
};
use crate::board::lemma_bit_single;
use crate::board::{WHITE_QUEEN, WHITE_KING, BLACK_QUEEN, BLACK_KING};
use crate::board::{piece_at, room, step_spec, lemma_step_room, Castle, Direction};
use crate::fen::{board_scan, decode_spec, empty_boards, piece_of, digit_of, fields};

verus! {

/// No square is held by two of the twelve boards.
pub open spec fn disjoint_boards(b: Seq<BitBoard>) -> bool {
    &&& b.len() == 12
    &&& forall|i: int, j: int, s: Square|
        #![trigger b[i].has(s), b[j].has(s)]
        0 <= i < 12 && 0 <= j < 12 && i != j && s.valid() && b[i].has(s) ==> !b[j].has(s)
}

pub open spec fn disjoint(p: Position) -> bool {
    disjoint_boards(p.boards)
}

/// No board holds `s`.
pub open spec fn empty_at(b: Seq<BitBoard>, s: Square) -> bool {
    forall|k: int| 0 <= k < 12 ==> !(#[trigger] b[k].has(s))
}

/// Whether board `k` of the table belongs to `side`.
pub open spec fn of_side(side: Sides, k: int) -> bool {
    side.ord() * 6 <= k < side.ord() * 6 + 6
}

proof fn lemma_bit_cleared(b: u64, i: u64, j: u64)
    requires
        i < 64,
        j < 64,
    ensures
        bit(b & !(1u64 << i), j) == (i != j && bit(b, j)),
{
    assert((((b & !(1u64 << i)) >> j) & 1u64 == 1u64) == (i != j && ((b >> j) & 1u64 == 1u64)))
        by (bit_vector)
        requires
            i < 64,
            j < 64,
    ;
}

pub proof fn lemma_flip_in_has(b: Seq<BitBoard>, side: Sides, piece: Piece, sq: Square, k: int, s: Square)
    requires
        b.len() == 12,
        0 <= k < 12,
        sq.valid(),
        s.valid(),
    ensures
        flip_in(b, side, piece, sq).len() == 12,
        flip_in(b, side, piece, sq)[k].has(s) == (if k == slot(side, piece) && s == sq {
            !b[k].has(s)
        } else {
            b[k].has(s)
        }),
{
    if k == slot(side, piece) {
        lemma_bit_flip(b[k].0, sq.0 as u64, s.0 as u64);
    }
}

pub proof fn lemma_clear_side_has(b: Seq<BitBoard>, side: Sides, sq: Square, k: int, s: Square)
    requires
        b.len() == 12,
        0 <= k < 12,
        sq.valid(),
        s.valid(),
    ensures
        clear_side(b, side, sq).len() == 12,
        clear_side(b, side, sq)[k].has(s) == (if of_side(side, k) && s == sq {
            false
        } else {
            b[k].has(s)
        }),
{
    if of_side(side, k) {
        lemma_bit_cleared(b[k].0, sq.0 as u64, s.0 as u64);
    }
}

/// A square is in the union of the first `k` boards of `side` exactly when one of them holds it.
pub proof fn lemma_union_has(b: Seq<BitBoard>, side: Sides, k: int, s: Square)
    requires
        b.len() == 12,
        0 <= k <= 6,
        s.valid(),
    ensures
        bit(side_union(b, side, k), s.0 as u64) <==> exists|j: int|
            0 <= j < k && #[trigger] b[side.ord() * 6 + j].has(s),
    decreases k,
{
    if k > 0 {
        lemma_union_has(b, side, k - 1, s);
        lemma_bit_or(side_union(b, side, k - 1), b[side.ord() * 6 + k - 1].0, s.0 as u64);
        if bit(side_union(b, side, k), s.0 as u64) {
            if !b[side.ord() * 6 + k - 1].has(s) {
                let j = choose|j: int| 0 <= j < k - 1 && #[trigger] b[side.ord() * 6 + j].has(s);
                assert(0 <= j < k && b[side.ord() * 6 + j].has(s));
            }
        } else {
            assert forall|j: int| 0 <= j < k implies !(#[trigger] b[side.ord() * 6 + j].has(s)) by {
                if j < k - 1 {
                } else {
                }
            }
        }
    } else {
        assert(side_union(b, side, 0) == 0);
        let i = s.0 as u64;
        assert(((0u64 >> i) & 1u64 == 1u64) == false) by (bit_vector);
    }
}

/// The boards of a board scan are disjoint and empty from the cursor on.
pub open spec fn scan_sound(b: Seq<BitBoard>, x: u8, y: u8) -> bool {
    &&& x <= 8
    &&& y <= 7
    &&& disjoint_boards(b)
    &&& forall|s: Square| s.valid() && s.0 >= y * 8 + x ==> #[trigger] empty_at(b, s)
}

proof fn lemma_scan_sound(f: Seq<char>)
    ensures
        board_scan(f) matches Ok((b, x, y)) ==> scan_sound(b, x, y),
    decreases f.len(),
{
    if f.len() == 0 {
        let b = empty_boards();
        assert forall|k: int, s: Square| 0 <= k < 12 && s.valid() implies !(#[trigger] b[k].has(s)) by {
            let i = s.0 as u64;
            assert(((0u64 >> i) & 1u64 == 1u64) == false) by (bit_vector);
        }
        assert forall|s: Square| s.valid() implies #[trigger] empty_at(b, s) by {
            assert forall|k: int| 0 <= k < 12 implies !(#[trigger] b[k].has(s)) by {
                let i = s.0 as u64;
                assert(((0u64 >> i) & 1u64 == 1u64) == false) by (bit_vector);
            }
        }
    } else {
        lemma_scan_sound(f.drop_last());
        let c = f.last();
        if let Ok((b, x, y)) = board_scan(f.drop_last()) {
            if let Some((side, piece)) = piece_of(c) {
                if x < 8 {
                    let sq0 = Square((y * 8 + x) as u8);
                    let b2 = flip_in(b, side, piece, sq0);
                    assert(empty_at(b, sq0));
                    assert forall|i: int, j: int, s: Square|
                        #![trigger b2[i].has(s), b2[j].has(s)]
                        0 <= i < 12 && 0 <= j < 12 && i != j && s.valid() && b2[i].has(
                            s,
                        ) implies !b2[j].has(s) by {
                        lemma_flip_in_has(b, side, piece, sq0, i, s);
                        lemma_flip_in_has(b, side, piece, sq0, j, s);
                    }
                    assert forall|s: Square|
                        s.valid() && s.0 >= y * 8 + (x + 1) implies #[trigger] empty_at(b2, s) by {
                        assert(empty_at(b, s));
                        assert forall|k: int| 0 <= k < 12 implies !(#[trigger] b2[k].has(s)) by {
                            lemma_flip_in_has(b, side, piece, sq0, k, s);
                        }
                    }
                    lemma_flip_in_has(b, side, piece, sq0, 0, sq0);
                }
            } else if let Some(d) = digit_of(c) {
                assert(scan_sound(b, x, y));
                assert forall|s: Square| s.valid() && s.0 >= y * 8 + (x + d) implies #[trigger] empty_at(
                    b,
                    s,
                ) by {
                    assert(s.0 >= y * 8 + x);
                }
            }
        }
    }
}

/// A decoded position holds no square twice.
pub proof fn law_decoded_disjoint(s: Seq<char>)
    ensures
        decode_spec(s) matches Ok(p) ==> disjoint(p),
{
    let f = fields(s);
    if f.len() >= 4 {
        lemma_scan_sound(f[0]);
    }
}

/// The side whose castle `c` is.
pub open spec fn castle_side(c: Castle) -> Sides {
    match c {
        Castle::WhiteQueen | Castle::WhiteKing => Sides::White,
        _ => Sides::Black,
    }
}

/// Where the king of `side` starts.
pub open spec fn king_home(side: Sides) -> Square {
    match side {
        Sides::White => Square(60),
        Sides::Black => Square(4),
    }
}

/// The square that a pawn of `side` passes over on a two-rank advance from `m.from`.
pub open spec fn passed(side: Sides, m: Move) -> Square {
    match side {
        Sides::White => Square((m.from.0 - 8) as u8),
        Sides::Black => Square((m.from.0 + 8) as u8),
    }
}

/// What the rules guarantee of a move that is not a castle, whatever piece makes it.
pub open spec fn rules_ok(p: Position, m: Move) -> bool {
    let our = ours(p);
    let opp = theirs(p);
    &&& m.capture is None ==> !bit(our, m.to.0 as u64) && !bit(opp, m.to.0 as u64)
    &&& m.capture == Some(m.to) ==> bit(opp, m.to.0 as u64)
    &&& (m.capture matches Some(c) && c != m.to) ==> m.piece == Piece::Pawn && p.en_passant == Some(
        m.to,
    )
    &&& m.promotion matches Some(q) ==> m.piece == Piece::Pawn && q != Piece::Pawn && q
        != Piece::King
    &&& double_push(p.turn, m) ==> m.capture is None && m.promotion is None && !bit(
        our | opp,
        passed(p.turn, m).0 as u64,
    )
}

/// A move of `piece` from `from` that the rules allow, up to whether `from` holds the piece.
pub open spec fn step_ok(p: Position, piece: Piece, from: Square, m: Move) -> bool {
    &&& m.piece == piece
    &&& m.from == from
    &&& m.castle is None
    &&& m.valid()
    &&& rules_ok(p, m)
}

pub open spec fn all_step_ok(p: Position, piece: Piece, from: Square, s: Seq<Move>) -> bool {
    forall|i: int| 0 <= i < s.len() ==> step_ok(p, piece, from, #[trigger] s[i])
}

/// What a generated move guarantees about the position it was generated from.
pub open spec fn made_by_rules(p: Position, m: Move) -> bool {
    let block = ours(p) | theirs(p);
    &&& m.valid()
    &&& match m.castle {
        Some(c) => {
            &&& m == castle_move(c)
            &&& castle_side(c) == p.turn
            &&& p.has_right(c)
            &&& !bit(block, m.to.0 as u64)
            &&& !bit(block, rook_dest(c).0 as u64)
        },
        None => p.occupies(p.turn, m.piece, m.from) && rules_ok(p, m),
    }
}

pub open spec fn all_made(p: Position, s: Seq<Move>) -> bool {
    forall|i: int| 0 <= i < s.len() ==> made_by_rules(p, #[trigger] s[i])
}

proof fn lemma_step_ok_add(p: Position, piece: Piece, from: Square, a: Seq<Move>, b: Seq<Move>)
    requires
        all_step_ok(p, piece, from, a),
        all_step_ok(p, piece, from, b),
    ensures
        all_step_ok(p, piece, from, a + b),
{
    assert forall|i: int| 0 <= i < (a + b).len() implies step_ok(p, piece, from, #[trigger] (a + b)[i]) by {
        if i < a.len() {
            assert((a + b)[i] == a[i]);
        } else {
            assert((a + b)[i] == b[i - a.len()]);
        }
    }
}

proof fn lemma_made_add(p: Position, a: Seq<Move>, b: Seq<Move>)
    requires
        all_made(p, a),
        all_made(p, b),
    ensures
        all_made(p, a + b),
{
    assert forall|i: int| 0 <= i < (a + b).len() implies made_by_rules(p, #[trigger] (a + b)[i]) by {
        if i < a.len() {
            assert((a + b)[i] == a[i]);
        } else {
            assert((a + b)[i] == b[i - a.len()]);
        }
    }
}

proof fn lemma_hop_ok(p: Position, piece: Piece, from: Square, to: Option<Square>)
    requires
        piece != Piece::Pawn,
        from.valid(),
        to matches Some(t) ==> t.valid(),
    ensures
        all_step_ok(p, piece, from, hop(ours(p), theirs(p), piece, from, to)),
{
}

proof fn lemma_ray_ok(p: Position, piece: Piece, from: Square, cur: Square, dir: Direction)
    requires
        piece != Piece::Pawn,
        from.valid(),
    ensures
        all_step_ok(p, piece, from, ray(ours(p), theirs(p), piece, from, cur, dir)),
    decreases room(cur, dir),
{
    lemma_step_room(cur, dir);
    if let Some(n) = step_spec(cur, dir) {
        if !bit(theirs(p), n.0 as u64) && !bit(ours(p), n.0 as u64) {
            lemma_ray_ok(p, piece, from, n, dir);
            lemma_step_ok_add(
                p,
                piece,
                from,
                seq![crate::moves::plain(piece, from, n, None)],
                ray(ours(p), theirs(p), piece, from, n, dir),
            );
        }
    }
}

proof fn lemma_rays_ok(p: Position, piece: Piece, from: Square, dirs: Seq<Direction>)
    requires
        piece != Piece::Pawn,
        from.valid(),
    ensures
        all_step_ok(p, piece, from, rays(ours(p), theirs(p), piece, from, dirs)),
    decreases dirs.len(),
{
    if dirs.len() > 0 {
        lemma_rays_ok(p, piece, from, dirs.drop_last());
        lemma_ray_ok(p, piece, from, from, dirs.last());
        lemma_step_ok_add(
            p,
            piece,
            from,
            rays(ours(p), theirs(p), piece, from, dirs.drop_last()),
            ray(ours(p), theirs(p), piece, from, from, dirs.last()),
        );
    }
}

proof fn lemma_hops_ok(p: Position, piece: Piece, from: Square, dirs: Seq<Direction>)
    requires
        piece != Piece::Pawn,
        from.valid(),
    ensures
        all_step_ok(p, piece, from, hops(ours(p), theirs(p), piece, from, dirs)),
    decreases dirs.len(),
{
    if dirs.len() > 0 {
        lemma_hops_ok(p, piece, from, dirs.drop_last());
        lemma_step_room(from, dirs.last());
        lemma_hop_ok(p, piece, from, step_spec(from, dirs.last()));
        lemma_step_ok_add(
            p,
            piece,
            from,
            hops(ours(p), theirs(p), piece, from, dirs.drop_last()),
            hop(ours(p), theirs(p), piece, from, step_spec(from, dirs.last())),
        );
    }
}

proof fn lemma_leg_ok(p: Position, from: Square, diag: Direction, orth: Direction)
    requires
        from.valid(),
    ensures
        all_step_ok(p, Piece::Knight, from, hop(ours(p), theirs(p), Piece::Knight, from, leg(from, diag, orth))),
{
    lemma_step_room(from, diag);
    if let Some(m) = step_spec(from, diag) {
        lemma_step_room(m, orth);
    }
    lemma_hop_ok(p, Piece::Knight, from, leg(from, diag, orth));
}

proof fn lemma_knight_ok(p: Position, from: Square)
    requires
        from.valid(),
    ensures
        all_step_ok(p, Piece::Knight, from, knight_spec(ours(p), theirs(p), from)),
{
    let k = Piece::Knight;
    let (our, opp) = (ours(p), theirs(p));
    let legs = seq![
        (Direction::NE, Direction::N),
        (Direction::NE, Direction::E),
        (Direction::NW, Direction::N),
        (Direction::NW, Direction::W),
        (Direction::SE, Direction::S),
        (Direction::SE, Direction::E),
        (Direction::SW, Direction::S),
        (Direction::SW, Direction::W),
    ];
    let h = |i: int| hop(our, opp, k, from, leg(from, legs[i].0, legs[i].1));
    lemma_leg_ok(p, from, legs[0].0, legs[0].1);
    let mut acc = h(0);
    lemma_leg_ok(p, from, legs[1].0, legs[1].1);
    lemma_step_ok_add(p, k, from, acc, h(1));
    acc = acc + h(1);
    lemma_leg_ok(p, from, legs[2].0, legs[2].1);
    lemma_step_ok_add(p, k, from, acc, h(2));
    acc = acc + h(2);
    lemma_leg_ok(p, from, legs[3].0, legs[3].1);
    lemma_step_ok_add(p, k, from, acc, h(3));
    acc = acc + h(3);
    lemma_leg_ok(p, from, legs[4].0, legs[4].1);
    lemma_step_ok_add(p, k, from, acc, h(4));
    acc = acc + h(4);
    lemma_leg_ok(p, from, legs[5].0, legs[5].1);
    lemma_step_ok_add(p, k, from, acc, h(5));
    acc = acc + h(5);
    lemma_leg_ok(p, from, legs[6].0, legs[6].1);
    lemma_step_ok_add(p, k, from, acc, h(6));
    acc = acc + h(6);
    lemma_leg_ok(p, from, legs[7].0, legs[7].1);
    lemma_step_ok_add(p, k, from, acc, h(7));
    acc = acc + h(7);
    assert(acc == knight_spec(our, opp, from));
}

/// What the rules guarantee of a pawn destination, before promotion.
pub open spec fn target_ok(p: Position, from: Square, t: (Square, Option<Square>)) -> bool {
    let m = pawn_move(from, t.0, t.1, None);
    &&& t.0.valid()
    &&& t.1 matches Some(c) ==> c.valid()
    &&& rules_ok(p, m)
    &&& double_push(p.turn, m) ==> t.0.row() != last_row(p.turn)
}

proof fn lemma_expand_ok(p: Position, from: Square, ts: Seq<(Square, Option<Square>)>)
    requires
        from.valid(),
        forall|i: int| 0 <= i < ts.len() ==> target_ok(p, from, #[trigger] ts[i]),
    ensures
        all_step_ok(p, Piece::Pawn, from, expand(p.turn, from, ts)),
    decreases ts.len(),
{
    if ts.len() > 0 {
        lemma_expand_ok(p, from, ts.drop_last());
        let t = ts.last();
        assert(target_ok(p, from, ts[ts.len() - 1]));
        let one = expand_one(p.turn, from, t);
        assert forall|i: int| 0 <= i < one.len() implies step_ok(p, Piece::Pawn, from, #[trigger] one[i]) by {
            assert(one[i].to == t.0 && one[i].capture == t.1);
        }
        lemma_step_ok_add(p, Piece::Pawn, from, expand(p.turn, from, ts.drop_last()), one);
    }
}

proof fn lemma_pawn_ok(p: Position, from: Square)
    requires
        from.valid(),
    ensures
        all_step_ok(p, Piece::Pawn, from, pawn_spec(p, ours(p), theirs(p), from)),
{
    let (our, opp) = (ours(p), theirs(p));
    let f = forward(p.turn);
    lemma_step_room(from, f);
    if let Some(s) = step_spec(from, f) {
        lemma_step_room(s, f);
        lemma_bit_or(our, opp, s.0 as u64);
        if let Some(s2) = step_spec(s, f) {
            lemma_bit_or(our, opp, s2.0 as u64);
        }
    }
    lemma_step_room(from, capture_dirs(p.turn).0);
    lemma_step_room(from, capture_dirs(p.turn).1);
    let ts = pawn_targets(p, our, opp, from);
    let a = pushes(p, our | opp, from);
    let b = pawn_capture(p, opp, from, capture_dirs(p.turn).0);
    let c = pawn_capture(p, opp, from, capture_dirs(p.turn).1);
    assert(ts == a + b + c);
    assert forall|i: int| 0 <= i < ts.len() implies target_ok(p, from, #[trigger] ts[i]) by {
        if i < a.len() {
            assert(ts[i] == a[i]);
        } else if i < a.len() + b.len() {
            assert(ts[i] == b[i - a.len()]);
        } else {
            assert(ts[i] == c[i - a.len() - b.len()]);
        }
    }
    lemma_expand_ok(p, from, ts);
}

proof fn lemma_piece_moves_ok(p: Position, piece: Piece, from: Square)
    requires
        from.valid(),
    ensures
        all_step_ok(p, piece, from, piece_moves(p, ours(p), theirs(p), piece, from)),
{
    match piece {
        Piece::Pawn => lemma_pawn_ok(p, from),
        Piece::Rook => lemma_rays_ok(p, piece, from, rook_dirs()),
        Piece::Knight => lemma_knight_ok(p, from),
        Piece::Bishop => lemma_rays_ok(p, piece, from, bishop_dirs()),
        Piece::Queen => lemma_rays_ok(p, piece, from, all_dirs()),
        Piece::King => lemma_hops_ok(p, piece, from, all_dirs()),
    }
}

proof fn lemma_squares_made(p: Position, piece: Piece, n: int)
    requires
        n <= 64,
    ensures
        all_made(p, squares_upto(p, ours(p), theirs(p), piece, n)),
    decreases n,
{
    if n > 0 {
        let from = Square((n - 1) as u8);
        lemma_squares_made(p, piece, n - 1);
        let here = if p.occupies(p.turn, piece, from) {
            piece_moves(p, ours(p), theirs(p), piece, from)
        } else {
            seq![]
        };
        lemma_piece_moves_ok(p, piece, from);
        assert forall|i: int| 0 <= i < here.len() implies made_by_rules(p, #[trigger] here[i]) by {
            assert(step_ok(p, piece, from, here[i]));
        }
        lemma_made_add(p, squares_upto(p, ours(p), theirs(p), piece, n - 1), here);
    }
}

proof fn lemma_pieces_made(p: Position, k: int)
    ensures
        all_made(p, pieces_upto(p, ours(p), theirs(p), k)),
    decreases k,
{
    if k > 0 {
        lemma_pieces_made(p, k - 1);
        lemma_squares_made(p, piece_at(k - 1), 64);
        lemma_made_add(
            p,
            pieces_upto(p, ours(p), theirs(p), k - 1),
            squares_upto(p, ours(p), theirs(p), piece_at(k - 1), 64),
        );
    }
}

/// Every generated move keeps to the rules it was generated by.
pub proof fn lemma_pseudo_made(p: Position)
    ensures
        all_made(p, pseudo_spec(p)),
{
    lemma_pieces_made(p, 6);
    let c = castles(p, ours(p) | theirs(p));
    assert(all_made(p, c));
    lemma_made_add(p, pieces_upto(p, ours(p), theirs(p), 6), c);
}

/// Whether board `k` holds `s` after `m`, stage by stage as the move is carried out.
pub open spec fn after_has(p: Position, m: Move, k: int, s: Square) -> bool {
    let t = p.turn;
    let h0 = p.boards[k].has(s);
    let h1 = if k == slot(t, m.piece) && s == m.from {
        !h0
    } else {
        h0
    };
    let h2 = if k == slot(t, m.piece) && s == m.to {
        !h1
    } else {
        h1
    };
    let h3 = match m.capture {
        Some(c) => if of_side(t.other(), k) && s == c {
            false
        } else {
            h2
        },
        None => h2,
    };
    let h4 = match m.castle {
        Some(c) => {
            let a = if k == slot(t, Piece::Rook) && s == rook_home(c) {
                !h3
            } else {
                h3
            };
            if k == slot(t, Piece::Rook) && s == rook_dest(c) {
                !a
            } else {
                a
            }
        },
        None => h3,
    };
    match m.promotion {
        Some(q) => {
            let a = if k == slot(t, Piece::Pawn) && s == m.to {
                !h4
            } else {
                h4
            };
            if k == slot(t, q) && s == m.to {
                !a
            } else {
                a
            }
        },
        None => h4,
    }
}

proof fn lemma_apply_has(p: Position, m: Move, k: int, s: Square)
    requires
        p.boards.len() == 12,
        m.valid(),
        0 <= k < 12,
        s.valid(),
    ensures
        apply_boards(p, m).len() == 12,
        apply_boards(p, m)[k].has(s) == after_has(p, m, k, s),
{
    let t = p.turn;
    let b1 = flip_in(p.boards, t, m.piece, m.from);
    lemma_flip_in_has(p.boards, t, m.piece, m.from, k, s);
    let b2 = flip_in(b1, t, m.piece, m.to);
    lemma_flip_in_has(b1, t, m.piece, m.to, k, s);
    let b3 = match m.capture {
        Some(c) => clear_side(b2, t.other(), c),
        None => b2,
    };
    if let Some(c) = m.capture {
        lemma_clear_side_has(b2, t.other(), c, k, s);
    }
    let b4 = match m.castle {
        Some(c) => flip_in(flip_in(b3, t, Piece::Rook, rook_home(c)), t, Piece::Rook, rook_dest(c)),
        None => b3,
    };
    if let Some(c) = m.castle {
        lemma_flip_in_has(b3, t, Piece::Rook, rook_home(c), k, s);
        lemma_flip_in_has(flip_in(b3, t, Piece::Rook, rook_home(c)), t, Piece::Rook, rook_dest(c), k, s);
    }
    if let Some(q) = m.promotion {
        lemma_flip_in_has(b4, t, Piece::Pawn, m.to, k, s);
        lemma_flip_in_has(flip_in(b4, t, Piece::Pawn, m.to), t, q, m.to, k, s);
    }
}

proof fn lemma_and_bit(r: u8, k: u8, mask: u8)
    ensures
        (r & k) & mask != 0 ==> r & mask != 0 && k & mask != 0,
{
    assert((r & k) & mask != 0 ==> r & mask != 0 && k & mask != 0) by (bit_vector);
}

/// A right held after a move was held before it, its rook still stands in the corner, and the
/// move was no move of its side's king.
proof fn lemma_right_kept(p: Position, m: Move, c: Castle)
    requires
        apply_spec(p, m).has_right(c),
    ensures
        p.has_right(c),
        apply_boards(p, m)[slot(castle_side(c), Piece::Rook)].has(rook_home(c)),
        !(m.piece == Piece::King && castle_side(c) == p.turn),
{
    assert((12u8 & 1u8) == 0u8 && (12u8 & 2u8) == 0u8 && (3u8 & 4u8) == 0u8 && (3u8 & 8u8) == 0u8
        && ((15u8 ^ 1u8) & 1u8) == 0u8 && ((15u8 ^ 2u8) & 2u8) == 0u8 && ((15u8 ^ 4u8) & 4u8) == 0u8
        && ((15u8 ^ 8u8) & 8u8) == 0u8 && (8u8 | 4u8) == 12u8 && (2u8 | 1u8) == 3u8) by (bit_vector);
    let b = apply_boards(p, m);
    let mc = c.mask();
    let r0 = p.castle_rights;
    let k1: u8 = match p.turn {
        Sides::White => BLACK_KING | BLACK_QUEEN,
        Sides::Black => WHITE_KING | WHITE_QUEEN,
    };
    let r1 = if m.piece == Piece::King {
        r0 & k1
    } else {
        r0
    };
    lemma_and_bit(r0, k1, mc);
    let k2 = 15u8 ^ rook_right(p.turn, m.from);
    let r2 = if m.piece == Piece::Rook {
        r1 & k2
    } else {
        r1
    };
    lemma_and_bit(r1, k2, mc);
    let white_rooks = b[slot(Sides::White, Piece::Rook)];
    let black_rooks = b[slot(Sides::Black, Piece::Rook)];
    let r3 = if !white_rooks.has(Square(56)) {
        r2 & (15u8 ^ WHITE_QUEEN)
    } else {
        r2
    };
    lemma_and_bit(r2, 15u8 ^ WHITE_QUEEN, mc);
    let r4 = if !white_rooks.has(Square(63)) {
        r3 & (15u8 ^ WHITE_KING)
    } else {
        r3
    };
    lemma_and_bit(r3, 15u8 ^ WHITE_KING, mc);
    let r5 = if !black_rooks.has(Square(0)) {
        r4 & (15u8 ^ BLACK_QUEEN)
    } else {
        r4
    };
    lemma_and_bit(r4, 15u8 ^ BLACK_QUEEN, mc);
    let r6 = if !black_rooks.has(Square(7)) {
        r5 & (15u8 ^ BLACK_KING)
    } else {
        r5
    };
    lemma_and_bit(r5, 15u8 ^ BLACK_KING, mc);
    assert(rights_after(p, m, b) == r6);
}

/// A consistent position: no square held twice, an empty en-passant square, and every castling
/// right backed by its king and its rook on their home squares.
pub open spec fn sound(p: Position) -> bool {
    &&& disjoint(p)
    &&& p.en_passant matches Some(s) ==> s.valid() && empty_at(p.boards, s)
    &&& forall|c: Castle|
        #[trigger] p.has_right(c) ==> p.occupies(
            castle_side(c),
            Piece::King,
            king_home(castle_side(c)),
        ) && p.occupies(castle_side(c), Piece::Rook, rook_home(c))
}

/// Whether `m` leaves the opponent's king on the board.
pub open spec fn takes_no_king(p: Position, m: Move) -> bool {
    m.capture matches Some(c) ==> !p.occupies(p.turn.other(), Piece::King, c)
}

proof fn lemma_side_clear(p: Position, side: Sides, s: Square)
    requires
        p.boards.len() == 12,
        s.valid(),
        !bit(side_union(p.boards, side, 6), s.0 as u64),
    ensures
        forall|k: int| of_side(side, k) ==> !(#[trigger] p.boards[k].has(s)),
{
    lemma_union_has(p.boards, side, 6, s);
    assert forall|k: int| of_side(side, k) implies !(#[trigger] p.boards[k].has(s)) by {
        let j = k - side.ord() * 6;
        assert(p.boards[side.ord() * 6 + j] == p.boards[k]);
    }
}

proof fn lemma_block_clear(p: Position, s: Square)
    requires
        p.boards.len() == 12,
        s.valid(),
        !bit(ours(p) | theirs(p), s.0 as u64),
    ensures
        empty_at(p.boards, s),
{
    lemma_bit_or(ours(p), theirs(p), s.0 as u64);
    lemma_side_clear(p, p.turn, s);
    lemma_side_clear(p, p.turn.other(), s);
    assert forall|k: int| 0 <= k < 12 implies !(#[trigger] p.boards[k].has(s)) by {
        assert(of_side(p.turn, k) || of_side(p.turn.other(), k));
    }
}

proof fn lemma_apply_disjoint(p: Position, m: Move)
    requires
        sound(p),
        made_by_rules(p, m),
    ensures
        disjoint(apply_spec(p, m)),
{
    let t = p.turn;
    let b = apply_boards(p, m);
    lemma_apply_has(p, m, 0, m.to);
    match m.castle {
        Some(c) => {
            lemma_block_clear(p, m.to);
            lemma_block_clear(p, rook_dest(c));
            assert(p.has_right(c));
        },
        None => {
            match m.capture {
                None => {
                    lemma_side_clear(p, t, m.to);
                    lemma_side_clear(p, t.other(), m.to);
                },
                Some(c) => {
                    if c == m.to {
                        lemma_union_has(p.boards, t.other(), 6, m.to);
                        let j0 = choose|j: int|
                            0 <= j < 6 && #[trigger] p.boards[t.other().ord() * 6 + j].has(m.to);
                        let k0 = t.other().ord() * 6 + j0;
                        assert forall|k: int| of_side(t, k) implies !(#[trigger] p.boards[k].has(
                            m.to,
                        )) by {
                            assert(p.boards[k0].has(m.to));
                        }
                    } else {
                        assert(empty_at(p.boards, m.to));
                    }
                },
            }
        },
    }
    assert forall|i: int, j: int, s: Square|
        #![trigger b[i].has(s), b[j].has(s)]
        0 <= i < 12 && 0 <= j < 12 && i != j && s.valid() && b[i].has(s) implies !b[j].has(s) by {
        lemma_apply_has(p, m, i, s);
        lemma_apply_has(p, m, j, s);
        if m.castle is None {
            assert(p.boards[slot(t, m.piece)].has(m.from));
        }
    }
}

proof fn lemma_apply_en_passant(p: Position, m: Move)
    requires
        sound(p),
        made_by_rules(p, m),
    ensures
        apply_spec(p, m).en_passant matches Some(s) ==> s.valid() && empty_at(
            apply_boards(p, m),
            s,
        ),
{
    if let Some(s) = en_passant_after(p, m) {
        assert(m.castle is None);
        assert(double_push(p.turn, m));
        assert(s == passed(p.turn, m));
        lemma_block_clear(p, s);
        let b = apply_boards(p, m);
        assert forall|k: int| 0 <= k < 12 implies !(#[trigger] b[k].has(s)) by {
            lemma_apply_has(p, m, k, s);
        }
    }
}

proof fn lemma_apply_rights(p: Position, m: Move)
    requires
        sound(p),
        made_by_rules(p, m),
        takes_no_king(p, m),
    ensures
        forall|c: Castle|
            #[trigger] apply_spec(p, m).has_right(c) ==> apply_spec(p, m).occupies(
                castle_side(c),
                Piece::King,
                king_home(castle_side(c)),
            ) && apply_spec(p, m).occupies(castle_side(c), Piece::Rook, rook_home(c)),
{
    let q = apply_spec(p, m);
    assert forall|c: Castle| #[trigger] q.has_right(c) implies q.occupies(
        castle_side(c),
        Piece::King,
        king_home(castle_side(c)),
    ) && q.occupies(castle_side(c), Piece::Rook, rook_home(c)) by {
        lemma_right_kept(p, m, c);
        lemma_apply_has(p, m, slot(castle_side(c), Piece::King), king_home(castle_side(c)));
    }
}

/// A generated move that takes no king keeps a consistent position consistent.
pub proof fn lemma_apply_sound(p: Position, m: Move)
    requires
        sound(p),
        made_by_rules(p, m),
        takes_no_king(p, m),
    ensures
        sound(apply_spec(p, m)),
{
    lemma_apply_disjoint(p, m);
    lemma_apply_en_passant(p, m);
    lemma_apply_rights(p, m);
}

/// Whether each move of `ms` is generated in the position it is played from and takes no king.
pub open spec fn generated_line(p: Position, ms: Seq<Move>) -> bool
    decreases ms.len(),
{
    if ms.len() == 0 {
        true
    } else {
        let q = play(p, ms.drop_last());
        &&& generated_line(p, ms.drop_last())
        &&& pseudo_spec(q).contains(ms.last())
        &&& takes_no_king(q, ms.last())
    }
}

/// Along any line of generated moves that takes no king, a consistent position stays
/// consistent, and so no square is ever held by two of the twelve boards.
pub proof fn law_occupancy_disjoint(p: Position, ms: Seq<Move>)
    requires
        sound(p),
        generated_line(p, ms),
    ensures
        sound(play(p, ms)),
        disjoint(play(p, ms)),
    decreases ms.len(),
{
    if ms.len() > 0 {
        let q = play(p, ms.drop_last());
        law_occupancy_disjoint(p, ms.drop_last());
        lemma_pseudo_made(q);
        let i = choose|i: int| 0 <= i < pseudo_spec(q).len() && pseudo_spec(q)[i] == ms.last();
        assert(made_by_rules(q, pseudo_spec(q)[i]));
        lemma_apply_sound(q, ms.last());
    }
}

/// `side` has exactly one king.
pub open spec fn one_king(p: Position, side: Sides) -> bool {
    exists|k: Square| k.valid() && #[trigger] p.board(side, Piece::King).0 == 1u64 << k.0
}

proof fn lemma_king_moves(k: u64, to: u64)
    requires
        k < 64,
        to < 64,
    ensures
        ((1u64 << k) ^ (1u64 << k)) ^ (1u64 << to) == 1u64 << to,
{
    assert(((1u64 << k) ^ (1u64 << k)) ^ (1u64 << to) == 1u64 << to) by (bit_vector)
        requires
            k < 64,
            to < 64,
    ;
}

proof fn lemma_king_clear(k: u64, c: u64)
    requires
        k < 64,
        c < 64,
    ensures
        c != k ==> (1u64 << k) & !(1u64 << c) == 1u64 << k,
        c == k ==> (1u64 << k) & !(1u64 << c) == 0,
{
    assert(c != k ==> (1u64 << k) & !(1u64 << c) == 1u64 << k) by (bit_vector)
        requires
            k < 64,
            c < 64,
    ;
    assert(c == k ==> (1u64 << k) & !(1u64 << c) == 0) by (bit_vector)
        requires
            k < 64,
            c < 64,
    ;
}

/// Where a move that takes no king leaves each side's single king.
proof fn lemma_apply_one_king(p: Position, m: Move, side: Sides)
    requires
        sound(p),
        made_by_rules(p, m),
        takes_no_king(p, m),
        one_king(p, side),
    ensures
        one_king(apply_spec(p, m), side),
{
    let t = p.turn;
    let k = choose|k: Square| k.valid() && #[trigger] p.board(side, Piece::King).0 == 1u64 << k.0;
    let ks = slot(side, Piece::King);
    let b = apply_boards(p, m);
    let b1 = flip_in(p.boards, t, m.piece, m.from);
    let b2 = flip_in(b1, t, m.piece, m.to);
    let b3 = match m.capture {
        Some(c) => clear_side(b2, t.other(), c),
        None => b2,
    };
    let b4 = match m.castle {
        Some(c) => flip_in(flip_in(b3, t, Piece::Rook, rook_home(c)), t, Piece::Rook, rook_dest(c)),
        None => b3,
    };
    let nk = if side == t && m.piece == Piece::King {
        m.to
    } else {
        k
    };
    if side == t && m.piece == Piece::King {
        lemma_bit_single(k.0 as u64, m.from.0 as u64);
        if let Some(c) = m.castle {
            assert(p.has_right(c));
        }
        assert(m.from == k);
        lemma_king_moves(k.0 as u64, m.to.0 as u64);
        assert(b2[ks].0 == 1u64 << m.to.0);
    } else {
        assert(b2[ks] == p.boards[ks]);
    }
    if let Some(c) = m.capture {
        lemma_king_clear(nk.0 as u64, c.0 as u64);
        if side == t.other() {
            lemma_bit_single(k.0 as u64, c.0 as u64);
        }
    }
    assert(b3[ks].0 == 1u64 << nk.0);
    assert(b4[ks] == b3[ks]);
    assert(b[ks].0 == 1u64 << nk.0);
    assert(apply_spec(p, m).board(side, Piece::King).0 == 1u64 << nk.0);
}

/// A move that takes the opponent's single king leaves that side without a king.
proof fn lemma_taking_king_kills(p: Position, m: Move)
    requires
        sound(p),
        made_by_rules(p, m),
        one_king(p, p.turn.other()),
        !takes_no_king(p, m),
    ensures
        !king_alive(apply_spec(p, m), p.turn.other()),
{
    let t = p.turn;
    let o = t.other();
    let k = choose|k: Square| k.valid() && #[trigger] p.board(o, Piece::King).0 == 1u64 << k.0;
    let ks = slot(o, Piece::King);
    let c = m.capture->Some_0;
    lemma_bit_single(k.0 as u64, c.0 as u64);
    assert(c == k);
    lemma_king_clear(k.0 as u64, c.0 as u64);
    let b1 = flip_in(p.boards, t, m.piece, m.from);
    let b2 = flip_in(b1, t, m.piece, m.to);
    assert(b2[ks] == p.boards[ks]);
    let b3 = clear_side(b2, o, c);
    assert(b3[ks].0 == 0);
}

proof fn lemma_legal_among_in(p: Position, ms: Seq<Move>, m: Move)
    requires
        legal_among(p, ms).contains(m),
    ensures
        ms.contains(m),
        legal(p, m),
    decreases ms.len(),
{
    if ms.len() > 0 {
        let rest = legal_among(p, ms.drop_last());
        let here = if legal(p, ms.last()) {
            seq![ms.last()]
        } else {
            seq![]
        };
        let i = choose|i: int| 0 <= i < legal_among(p, ms).len() && legal_among(p, ms)[i] == m;
        if i < rest.len() {
            assert(rest[i] == m);
            lemma_legal_among_in(p, ms.drop_last(), m);
            let j = choose|j: int| 0 <= j < ms.drop_last().len() && ms.drop_last()[j] == m;
            assert(ms[j] == m);
        } else {
            assert(here[i - rest.len()] == m);
            assert(ms[ms.len() - 1] == m);
        }
    }
}

/// Whether each move of `ms` is legal in the position it is played from.
pub open spec fn legal_line(p: Position, ms: Seq<Move>) -> bool
    decreases ms.len(),
{
    if ms.len() == 0 {
        true
    } else {
        legal_line(p, ms.drop_last()) && legal_spec(play(p, ms.drop_last())).contains(ms.last())
    }
}

/// Along legal play from a consistent position with one king a side, once the first move has
/// taken no king, no move ever takes one: the position stays consistent, each side keeps its
/// single king, and no square is ever held by two of the twelve boards.
pub proof fn law_occupancy_legal_play(p: Position, ms: Seq<Move>)
    requires
        sound(p),
        one_king(p, Sides::White),
        one_king(p, Sides::Black),
        legal_line(p, ms),
        ms.len() > 0 ==> takes_no_king(p, ms[0]),
    ensures
        sound(play(p, ms)),
        disjoint(play(p, ms)),
        one_king(play(p, ms), Sides::White),
        one_king(play(p, ms), Sides::Black),
    decreases ms.len(),
{
    if ms.len() > 0 {
        let prev = ms.drop_last();
        let q = play(p, prev);
        let m = ms.last();
        if prev.len() > 0 {
            assert(prev[0] == ms[0]);
        }
        law_occupancy_legal_play(p, prev);
        lemma_legal_among_in(q, pseudo_spec(q), m);
        lemma_pseudo_made(q);
        let i = choose|i: int| 0 <= i < pseudo_spec(q).len() && pseudo_spec(q)[i] == m;
        assert(made_by_rules(q, pseudo_spec(q)[i]));
        if prev.len() == 0 {
            assert(m == ms[0]);
        } else {
            let q0 = play(p, prev.drop_last());
            let m0 = prev.last();
            assert(q == apply_spec(q0, m0));
            assert(legal_line(p, prev));
            assert(legal_spec(q0).contains(m0));
            lemma_legal_among_in(q0, pseudo_spec(q0), m0);
            assert(legal(q0, m0));
            assert(king_alive(apply_spec(q, pseudo_spec(q)[i]), q0.turn));
            if !takes_no_king(q, m) {
                lemma_taking_king_kills(q, m);
            }
        }
        lemma_apply_sound(q, m);
        lemma_apply_one_king(q, m, Sides::White);
        lemma_apply_one_king(q, m, Sides::Black);
    }
}

} // verus!
