use vstd::prelude::*;
use crate::board::{Castle, GameState, Piece, Position, Sides, Square};
use crate::moves::{
    apply_spec, expand, expand_one, last_row, legal_spec, pawn_move, pawn_spec,
    pawn_targets, promotions, ours, theirs, pseudo_spec, rights_after, apply_boards, rook_right,
    Move,
};
use crate::board::{WHITE_QUEEN, WHITE_KING, BLACK_QUEEN, BLACK_KING};

verus! {

/// The position after playing `ms` in order from `p`.
pub open spec fn play(p: Position, ms: Seq<Move>) -> Position
    decreases ms.len(),
{
    if ms.len() == 0 {
        p
    } else {
        apply_spec(play(p, ms.drop_last()), ms.last())
    }
}

/// Whether `m` advances a pawn of `side` by two ranks.
pub open spec fn double_push(side: Sides, m: Move) -> bool {
    &&& m.piece == Piece::Pawn
    &&& match side {
        Sides::White => m.from.0 == m.to.0 + 16,
        Sides::Black => m.to.0 == m.from.0 + 16,
    }
}

/// The en-passant square is set by exactly the moves that advance a pawn two ranks, and then it
/// is the square that the pawn passed over, adjacent to the one it landed on; after any other
/// move there is none.
pub proof fn law_en_passant_window(p: Position, m: Move)
    requires
        m.valid(),
    ensures
        apply_spec(p, m).en_passant is Some <==> double_push(p.turn, m),
        apply_spec(p, m).en_passant matches Some(s) ==> {
            &&& s.valid()
            &&& s.file() == m.to.file()
            &&& s.file() == m.from.file()
            &&& match p.turn {
                Sides::White => s.0 == m.to.0 + 8 && s.0 + 8 == m.from.0,
                Sides::Black => s.0 + 8 == m.to.0 && s.0 == m.from.0 + 8,
            }
        },
{
}

proof fn lemma_and_within(r: u8, k: u8)
    ensures
        (r & k) | r == r,
{
    assert((r & k) | r == r) by (bit_vector);
}

proof fn lemma_within_trans(a: u8, b: u8, c: u8)
    requires
        a | b == b,
        b | c == c,
    ensures
        a | c == c,
{
    assert(a | c == c) by (bit_vector)
        requires
            a | b == b,
            b | c == c,
    ;
}

proof fn lemma_within_right(a: u8, b: u8, k: u8)
    requires
        a | b == b,
        a & k != 0,
    ensures
        b & k != 0,
{
    assert(b & k != 0) by (bit_vector)
        requires
            a | b == b,
            a & k != 0,
    ;
}

proof fn lemma_within_refl(a: u8)
    ensures
        a | a == a,
{
    assert(a | a == a) by (bit_vector);
}

/// One move only clears rights.
pub proof fn lemma_rights_shrink(p: Position, m: Move)
    ensures
        apply_spec(p, m).castle_rights | p.castle_rights == p.castle_rights,
{
    let b = apply_boards(p, m);
    let r0 = p.castle_rights;
    let k1: u8 = match p.turn {
        Sides::White => BLACK_KING | BLACK_QUEEN,
        Sides::Black => WHITE_KING | WHITE_QUEEN,
    };
    let r1 = if m.piece == Piece::King {
        r0 & k1
    } else {
        r0
    };
    lemma_and_within(r0, k1);
    lemma_within_refl(r0);
    let r2 = if m.piece == Piece::Rook {
        r1 & (15u8 ^ rook_right(p.turn, m.from))
    } else {
        r1
    };
    lemma_and_within(r1, 15u8 ^ rook_right(p.turn, m.from));
    lemma_within_refl(r1);
    lemma_within_trans(r2, r1, r0);
    let white_rooks = b[crate::board::slot(Sides::White, Piece::Rook)];
    let black_rooks = b[crate::board::slot(Sides::Black, Piece::Rook)];
    let r3 = if !white_rooks.has(Square(56)) {
        r2 & (15u8 ^ WHITE_QUEEN)
    } else {
        r2
    };
    lemma_and_within(r2, 15u8 ^ WHITE_QUEEN);
    lemma_within_refl(r2);
    lemma_within_trans(r3, r2, r0);
    let r4 = if !white_rooks.has(Square(63)) {
        r3 & (15u8 ^ WHITE_KING)
    } else {
        r3
    };
    lemma_and_within(r3, 15u8 ^ WHITE_KING);
    lemma_within_refl(r3);
    lemma_within_trans(r4, r3, r0);
    let r5 = if !black_rooks.has(Square(0)) {
        r4 & (15u8 ^ BLACK_QUEEN)
    } else {
        r4
    };
    lemma_and_within(r4, 15u8 ^ BLACK_QUEEN);
    lemma_within_refl(r4);
    lemma_within_trans(r5, r4, r0);
    let r6 = if !black_rooks.has(Square(7)) {
        r5 & (15u8 ^ BLACK_KING)
    } else {
        r5
    };
    lemma_and_within(r5, 15u8 ^ BLACK_KING);
    lemma_within_refl(r5);
    lemma_within_trans(r6, r5, r0);
    assert(rights_after(p, m, b) == r6);
}

/// Castling rights are only ever given up: over any sequence of moves, every right held at the
/// end was held at the start, and no bit of the mask is ever set.
pub proof fn law_castle_rights_only_clear(p: Position, ms: Seq<Move>)
    ensures
        play(p, ms).castle_rights | p.castle_rights == p.castle_rights,
        forall|c: Castle| #[trigger] play(p, ms).has_right(c) ==> p.has_right(c),
    decreases ms.len(),
{
    if ms.len() == 0 {
        lemma_within_refl(p.castle_rights);
    } else {
        let q = play(p, ms.drop_last());
        law_castle_rights_only_clear(p, ms.drop_last());
        lemma_rights_shrink(q, ms.last());
        lemma_within_trans(play(p, ms).castle_rights, q.castle_rights, p.castle_rights);
    }
    assert forall|c: Castle| #[trigger] play(p, ms).has_right(c) implies p.has_right(c) by {
        lemma_within_right(play(p, ms).castle_rights, p.castle_rights, c.mask());
    }
}

/// Generation depends on the position alone: equal positions give the same pseudo-legal and
/// the same legal moves, in the same order.
pub proof fn law_generation_deterministic(a: GameState, b: GameState)
    requires
        a@ == b@,
    ensures
        pseudo_spec(a@) == pseudo_spec(b@),
        legal_spec(a@) == legal_spec(b@),
{
}

proof fn lemma_expand_prefix(side: Sides, from: Square, ts: Seq<(Square, Option<Square>)>, i: int, j: int)
    requires
        0 <= i <= j <= ts.len(),
    ensures
        expand(side, from, ts.take(i)).len() <= expand(side, from, ts.take(j)).len(),
        expand(side, from, ts.take(j)).subrange(0, expand(side, from, ts.take(i)).len() as int)
            == expand(side, from, ts.take(i)),
    decreases j - i,
{
    if i == j {
        assert(expand(side, from, ts.take(j)).subrange(0, expand(side, from, ts.take(i)).len() as int)
            =~= expand(side, from, ts.take(i)));
    } else {
        lemma_expand_prefix(side, from, ts, i, j - 1);
        assert(ts.take(j).drop_last() =~= ts.take(j - 1));
        let a = expand(side, from, ts.take(i));
        let b = expand(side, from, ts.take(j - 1));
        let c = expand(side, from, ts.take(j));
        assert(c == b + expand_one(side, from, ts.take(j).last()));
        assert(c.subrange(0, a.len() as int) =~= b.subrange(0, a.len() as int));
    }
}

proof fn lemma_expand_promotes_on_last_row(side: Sides, from: Square, ts: Seq<(Square, Option<Square>)>)
    ensures
        forall|j: int|
            0 <= j < expand(side, from, ts).len() ==> ((#[trigger] expand(side, from, ts)[j]).promotion
                is Some <==> expand(side, from, ts)[j].to.row() == last_row(side)),
    decreases ts.len(),
{
    if ts.len() > 0 {
        lemma_expand_promotes_on_last_row(side, from, ts.drop_last());
        let a = expand(side, from, ts.drop_last());
        let b = expand_one(side, from, ts.last());
        assert forall|j: int|
            0 <= j < expand(side, from, ts).len() implies ((#[trigger] expand(side, from, ts)[j]).promotion
            is Some <==> expand(side, from, ts)[j].to.row() == last_row(side)) by {
            if j < a.len() {
                assert(expand(side, from, ts)[j] == a[j]);
            } else {
                assert(expand(side, from, ts)[j] == b[j - a.len()]);
            }
        }
    }
}

/// A pawn move onto the farthest row always comes out as exactly four moves, side by side,
/// promoting to Bishop, Knight, Rook and Queen; a pawn move onto any other row comes out once,
/// unpromoted; and no other pawn move promotes.
pub proof fn law_promotion_complete(p: Position, from: Square, i: int)
    requires
        0 <= i < pawn_targets(p, ours(p), theirs(p), from).len(),
    ensures
        ({
            let ts = pawn_targets(p, ours(p), theirs(p), from);
            let ms = pawn_spec(p, ours(p), theirs(p), from);
            let start = expand(p.turn, from, ts.take(i)).len() as int;
            &&& ts[i].0.row() == last_row(p.turn) ==> ms.subrange(start, start + 4) == promotions(
                from,
                ts[i].0,
                ts[i].1,
            )
            &&& ts[i].0.row() != last_row(p.turn) ==> ms.subrange(start, start + 1) == seq![
                pawn_move(from, ts[i].0, ts[i].1, None),
            ]
            &&& forall|j: int|
                0 <= j < ms.len() ==> ((#[trigger] ms[j]).promotion is Some <==> ms[j].to.row()
                    == last_row(p.turn))
        }),
{
    let ts = pawn_targets(p, ours(p), theirs(p), from);
    let ms = pawn_spec(p, ours(p), theirs(p), from);
    let side = p.turn;
    lemma_expand_prefix(side, from, ts, i + 1, ts.len() as int);
    assert(ts.take(ts.len() as int) =~= ts);
    assert(ts.take(i + 1).drop_last() =~= ts.take(i));
    assert(ts.take(i + 1).last() == ts[i]);
    let a = expand(side, from, ts.take(i));
    let b = expand(side, from, ts.take(i + 1));
    assert(b == a + expand_one(side, from, ts[i]));
    let start = a.len() as int;
    if ts[i].0.row() == last_row(side) {
        assert(ms.subrange(start, start + 4) =~= b.subrange(start, start + 4));
        assert(b.subrange(start, start + 4) =~= promotions(from, ts[i].0, ts[i].1));
    } else {
        assert(ms.subrange(start, start + 1) =~= b.subrange(start, start + 1));
        assert(b.subrange(start, start + 1) =~= seq![pawn_move(from, ts[i].0, ts[i].1, None)]);
    }
    lemma_expand_promotes_on_last_row(side, from, ts);
}

} // verus!
