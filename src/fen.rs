use vstd::prelude::*;
use vstd::string::StrSliceExecFns;
use crate::board::{BitBoard, Castle, GameState, Piece, Position, Sides, Square};
use crate::moves::flip_in;

verus! {

/// Why a position string was refused.
#[derive(Clone, Copy, PartialEq, Eq, Debug, Structural)]
pub enum FenError {
    /// Fewer than four fields.
    MissingField,
    /// A character of the board field that is no piece letter, digit 1-8 or `/`.
    BoardChar(char),
    /// A rank that does not hold exactly eight files, or a board not of exactly eight ranks.
    RankLength,
    /// A side to move other than `w` or `b`.
    Side,
    /// A character of the castling field other than `K`, `Q`, `k` or `q`.
    CastleChar(char),
    /// An en-passant field that is neither `-` nor a square such as `e3`.
    EnPassant,
}

/// The characters that separate fields.
pub open spec fn is_space(c: char) -> bool {
    c == ' ' || c == '\t' || c == '\n' || c == '\r' || c == '\x0b' || c == '\x0c'
}

/// The fields finished so far and the one being read, after reading `s`.
pub open spec fn split_state(s: Seq<char>) -> (Seq<Seq<char>>, Seq<char>)
    decreases s.len(),
{
    if s.len() == 0 {
        (seq![], seq![])
    } else {
        let (done, cur) = split_state(s.drop_last());
        let c = s.last();
        if is_space(c) {
            if cur.len() > 0 {
                (done.push(cur), seq![])
            } else {
                (done, cur)
            }
        } else {
            (done, cur.push(c))
        }
    }
}

/// The non-empty runs of non-space characters of `s`, in order.
pub open spec fn fields(s: Seq<char>) -> Seq<Seq<char>> {
    let (done, cur) = split_state(s);
    if cur.len() > 0 {
        done.push(cur)
    } else {
        done
    }
}

/// The side and piece type that a board letter stands for.
pub open spec fn piece_of(c: char) -> Option<(Sides, Piece)> {
    match c {
        'P' => Some((Sides::White, Piece::Pawn)),
        'R' => Some((Sides::White, Piece::Rook)),
        'N' => Some((Sides::White, Piece::Knight)),
        'B' => Some((Sides::White, Piece::Bishop)),
        'Q' => Some((Sides::White, Piece::Queen)),
        'K' => Some((Sides::White, Piece::King)),
        'p' => Some((Sides::Black, Piece::Pawn)),
        'r' => Some((Sides::Black, Piece::Rook)),
        'n' => Some((Sides::Black, Piece::Knight)),
        'b' => Some((Sides::Black, Piece::Bishop)),
        'q' => Some((Sides::Black, Piece::Queen)),
        'k' => Some((Sides::Black, Piece::King)),
        _ => None,
    }
}

/// The run of empty files that a digit of the board field stands for.
pub open spec fn digit_of(c: char) -> Option<u8> {
    match c {
        '1' => Some(1u8),
        '2' => Some(2u8),
        '3' => Some(3u8),
        '4' => Some(4u8),
        '5' => Some(5u8),
        '6' => Some(6u8),
        '7' => Some(7u8),
        '8' => Some(8u8),
        _ => None,
    }
}

/// Where the board scan stands: the boards so far, the file cursor and the rank cursor.
pub type Scan = (Seq<BitBoard>, u8, u8);

/// One character of the board field: a piece is placed at the cursor, a digit skips files,
/// `/` closes a full rank.
pub open spec fn board_step(st: Result<Scan, FenError>, c: char) -> Result<Scan, FenError> {
    match st {
        Err(e) => Err(e),
        Ok((b, x, y)) => match piece_of(c) {
            Some((side, piece)) => if x >= 8 {
                Err(FenError::RankLength)
            } else {
                Ok((flip_in(b, side, piece, Square((y * 8 + x) as u8)), (x + 1) as u8, y))
            },
            None => match digit_of(c) {
                Some(d) => if x + d > 8 {
                    Err(FenError::RankLength)
                } else {
                    Ok((b, (x + d) as u8, y))
                },
                None => if c == '/' {
                    if x != 8 || y >= 7 {
                        Err(FenError::RankLength)
                    } else {
                        Ok((b, 0u8, (y + 1) as u8))
                    }
                } else {
                    Err(FenError::BoardChar(c))
                },
            },
        },
    }
}

pub open spec fn empty_boards() -> Seq<BitBoard> {
    Seq::new(12, |i: int| BitBoard(0))
}

/// The scan after the characters of `f`, from an empty board at a8.
pub open spec fn board_scan(f: Seq<char>) -> Result<Scan, FenError>
    decreases f.len(),
{
    if f.len() == 0 {
        Ok((empty_boards(), 0u8, 0u8))
    } else {
        board_step(board_scan(f.drop_last()), f.last())
    }
}

/// The boards of a board field that ends exactly after the eighth file of the eighth rank.
pub open spec fn decode_board(f: Seq<char>) -> Result<Seq<BitBoard>, FenError> {
    match board_scan(f) {
        Err(e) => Err(e),
        Ok((b, x, y)) => if x == 8 && y == 7 {
            Ok(b)
        } else {
            Err(FenError::RankLength)
        },
    }
}

pub open spec fn decode_side(f: Seq<char>) -> Result<Sides, FenError> {
    if f == seq!['w'] {
        Ok(Sides::White)
    } else if f == seq!['b'] {
        Ok(Sides::Black)
    } else {
        Err(FenError::Side)
    }
}

/// The right that a letter of the castling field stands for.
pub open spec fn right_of(c: char) -> Option<Castle> {
    match c {
        'K' => Some(Castle::WhiteKing),
        'Q' => Some(Castle::WhiteQueen),
        'k' => Some(Castle::BlackKing),
        'q' => Some(Castle::BlackQueen),
        _ => None,
    }
}

/// The rights named by the letters of `f`, or the first letter that names none.
pub open spec fn rights_of(f: Seq<char>) -> Result<u8, FenError>
    decreases f.len(),
{
    if f.len() == 0 {
        Ok(0u8)
    } else {
        match rights_of(f.drop_last()) {
            Err(e) => Err(e),
            Ok(r) => match right_of(f.last()) {
                Some(c) => Ok(r | c.mask()),
                None => Err(FenError::CastleChar(f.last())),
            },
        }
    }
}

pub open spec fn decode_castle(f: Seq<char>) -> Result<u8, FenError> {
    if f == seq!['-'] {
        Ok(0u8)
    } else {
        rights_of(f)
    }
}

/// The file that a letter `a`-`h` names.
pub open spec fn file_of(c: char) -> Option<u8> {
    match c {
        'a' => Some(0u8),
        'b' => Some(1u8),
        'c' => Some(2u8),
        'd' => Some(3u8),
        'e' => Some(4u8),
        'f' => Some(5u8),
        'g' => Some(6u8),
        'h' => Some(7u8),
        _ => None,
    }
}

/// The row, counted from the top, that a rank digit `1`-`8` names.
pub open spec fn row_of(c: char) -> Option<u8> {
    match c {
        '8' => Some(0u8),
        '7' => Some(1u8),
        '6' => Some(2u8),
        '5' => Some(3u8),
        '4' => Some(4u8),
        '3' => Some(5u8),
        '2' => Some(6u8),
        '1' => Some(7u8),
        _ => None,
    }
}

pub open spec fn decode_en_passant(f: Seq<char>) -> Result<Option<Square>, FenError> {
    if f == seq!['-'] {
        Ok(None)
    } else if f.len() == 2 && file_of(f[0]) is Some && row_of(f[1]) is Some {
        Ok(Some(Square((row_of(f[1])->Some_0 * 8 + file_of(f[0])->Some_0) as u8)))
    } else {
        Err(FenError::EnPassant)
    }
}

/// The position that a string in Forsyth-Edwards notation describes: its board, side to move,
/// castling rights and en-passant fields, read in that order; later fields are ignored.
pub open spec fn decode_spec(s: Seq<char>) -> Result<Position, FenError> {
    let f = fields(s);
    if f.len() < 4 {
        Err(FenError::MissingField)
    } else {
        match decode_board(f[0]) {
            Err(e) => Err(e),
            Ok(b) => match decode_side(f[1]) {
                Err(e) => Err(e),
                Ok(turn) => match decode_castle(f[2]) {
                    Err(e) => Err(e),
                    Ok(rights) => match decode_en_passant(f[3]) {
                        Err(e) => Err(e),
                        Ok(ep) => Ok(
                            Position { boards: b, turn, castle_rights: rights, en_passant: ep },
                        ),
                    },
                },
            },
        }
    }
}

proof fn lemma_scan_err(f: Seq<char>, i: int)
    requires
        0 <= i <= f.len(),
        board_scan(f.take(i)) is Err,
    ensures
        board_scan(f) == board_scan(f.take(i)),
    decreases f.len(),
{
    if i == f.len() {
        assert(f.take(i) =~= f);
    } else {
        assert(f.drop_last().take(i) =~= f.take(i));
        lemma_scan_err(f.drop_last(), i);
    }
}

proof fn lemma_rights_err(f: Seq<char>, i: int)
    requires
        0 <= i <= f.len(),
        rights_of(f.take(i)) is Err,
    ensures
        rights_of(f) == rights_of(f.take(i)),
    decreases f.len(),
{
    if i == f.len() {
        assert(f.take(i) =~= f);
    } else {
        assert(f.drop_last().take(i) =~= f.take(i));
        lemma_rights_err(f.drop_last(), i);
    }
}

fn is_space_char(c: char) -> (r: bool)
    ensures
        r == is_space(c),
{
    c == ' ' || c == '\t' || c == '\n' || c == '\r' || c == '\x0b' || c == '\x0c'
}

/// The whitespace-separated fields of `s`.
fn split_fields(s: &str) -> (r: Vec<Vec<char>>)
    ensures
        r@.map_values(|v: Vec<char>| v@) == fields(s@),
{
    let n = s.unicode_len();
    let mut done: Vec<Vec<char>> = Vec::new();
    let mut cur: Vec<char> = Vec::new();
    let mut i: usize = 0;
    while i < n
        invariant
            i <= n,
            n == s@.len(),
            (done@.map_values(|v: Vec<char>| v@), cur@) == split_state(s@.take(i as int)),
        decreases n - i,
    {
        let c = s.get_char(i);
        assert(s@.take(i as int + 1).drop_last() =~= s@.take(i as int));
        assert(s@.take(i as int + 1).last() == c);
        let ghost old_done = done@;
        if is_space_char(c) {
            if cur.len() > 0 {
                let ghost v = cur@;
                done.push(cur);
                cur = Vec::new();
                assert(done@.map_values(|v: Vec<char>| v@) =~= old_done.map_values(
                    |v: Vec<char>| v@,
                ).push(v));
            }
        } else {
            cur.push(c);
        }
        i += 1;
    }
    assert(s@.take(n as int) =~= s@);
    if cur.len() > 0 {
        let ghost old_done = done@;
        let ghost v = cur@;
        done.push(cur);
        assert(done@.map_values(|v: Vec<char>| v@) =~= old_done.map_values(|v: Vec<char>| v@).push(
            v,
        ));
    }
    done
}

fn piece_letter(c: char) -> (r: Option<(Sides, Piece)>)
    ensures
        r == piece_of(c),
{
    match c {
        'P' => Some((Sides::White, Piece::Pawn)),
        'R' => Some((Sides::White, Piece::Rook)),
        'N' => Some((Sides::White, Piece::Knight)),
        'B' => Some((Sides::White, Piece::Bishop)),
        'Q' => Some((Sides::White, Piece::Queen)),
        'K' => Some((Sides::White, Piece::King)),
        'p' => Some((Sides::Black, Piece::Pawn)),
        'r' => Some((Sides::Black, Piece::Rook)),
        'n' => Some((Sides::Black, Piece::Knight)),
        'b' => Some((Sides::Black, Piece::Bishop)),
        'q' => Some((Sides::Black, Piece::Queen)),
        'k' => Some((Sides::Black, Piece::King)),
        _ => None,
    }
}

fn digit(c: char) -> (r: Option<u8>)
    ensures
        r == digit_of(c),
{
    match c {
        '1' => Some(1u8),
        '2' => Some(2u8),
        '3' => Some(3u8),
        '4' => Some(4u8),
        '5' => Some(5u8),
        '6' => Some(6u8),
        '7' => Some(7u8),
        '8' => Some(8u8),
        _ => None,
    }
}

fn castle_letter(c: char) -> (r: Option<Castle>)
    ensures
        r == right_of(c),
{
    match c {
        'K' => Some(Castle::WhiteKing),
        'Q' => Some(Castle::WhiteQueen),
        'k' => Some(Castle::BlackKing),
        'q' => Some(Castle::BlackQueen),
        _ => None,
    }
}

fn file_letter(c: char) -> (r: Option<u8>)
    ensures
        r == file_of(c),
{
    match c {
        'a' => Some(0u8),
        'b' => Some(1u8),
        'c' => Some(2u8),
        'd' => Some(3u8),
        'e' => Some(4u8),
        'f' => Some(5u8),
        'g' => Some(6u8),
        'h' => Some(7u8),
        _ => None,
    }
}

fn rank_digit(c: char) -> (r: Option<u8>)
    ensures
        r == row_of(c),
{
    match c {
        '8' => Some(0u8),
        '7' => Some(1u8),
        '6' => Some(2u8),
        '5' => Some(3u8),
        '4' => Some(4u8),
        '3' => Some(5u8),
        '2' => Some(6u8),
        '1' => Some(7u8),
        _ => None,
    }
}

/// Whether `f` is the single character `c`.
fn is_single(f: &Vec<char>, c: char) -> (r: bool)
    ensures
        r == (f@ == seq![c]),
{
    if f.len() == 1 && f[0] == c {
        assert(f@ =~= seq![c]);
        true
    } else {
        proof {
            if f@ == seq![c] {
                assert(f@.len() == 1 && f@[0] == c);
            }
        }
        false
    }
}

/// Reads the board field onto an empty position with White to move.
fn read_board(f: &Vec<char>) -> (r: Result<GameState, FenError>)
    ensures
        match decode_board(f@) {
            Ok(b) => r matches Ok(g) && g.state@ == b && g.turn == Sides::White && g.castle_rights
                == 0 && g.en_passant == None::<Square>,
            Err(e) => r == Err::<GameState, FenError>(e),
        },
{
    let mut game = GameState::empty();
    assert(game.state@ =~= empty_boards());
    let mut x: u8 = 0;
    let mut y: u8 = 0;
    let mut i: usize = 0;
    while i < f.len()
        invariant
            i <= f@.len(),
            x <= 8,
            y <= 7,
            game.state@.len() == 12,
            game.turn == Sides::White,
            game.castle_rights == 0,
            game.en_passant == None::<Square>,
            board_scan(f@.take(i as int)) == Ok::<Scan, FenError>((game.state@, x, y)),
        decreases f@.len() - i,
    {
        let c = f[i];
        assert(f@.take(i as int + 1).drop_last() =~= f@.take(i as int));
        assert(f@.take(i as int + 1).last() == c);
        match piece_letter(c) {
            Some((side, piece)) => {
                if x >= 8 {
                    proof {
                        lemma_scan_err(f@, i as int + 1);
                    }
                    return Err(FenError::RankLength);
                }
                game.board_mut(side, piece).flip(Square(y * 8 + x));
                x = x + 1;
            },
            None => match digit(c) {
                Some(d) => {
                    if x + d > 8 {
                        proof {
                            lemma_scan_err(f@, i as int + 1);
                        }
                        return Err(FenError::RankLength);
                    }
                    x = x + d;
                },
                None => {
                    if c == '/' {
                        if x != 8 || y >= 7 {
                            proof {
                                lemma_scan_err(f@, i as int + 1);
                            }
                            return Err(FenError::RankLength);
                        }
                        x = 0;
                        y = y + 1;
                    } else {
                        proof {
                            lemma_scan_err(f@, i as int + 1);
                        }
                        return Err(FenError::BoardChar(c));
                    }
                },
            },
        }
        i += 1;
    }
    assert(f@.take(f@.len() as int) =~= f@);
    if x == 8 && y == 7 {
        Ok(game)
    } else {
        Err(FenError::RankLength)
    }
}

fn read_side(f: &Vec<char>) -> (r: Result<Sides, FenError>)
    ensures
        r == decode_side(f@),
{
    if is_single(f, 'w') {
        Ok(Sides::White)
    } else if is_single(f, 'b') {
        Ok(Sides::Black)
    } else {
        Err(FenError::Side)
    }
}

fn read_castle(f: &Vec<char>) -> (r: Result<u8, FenError>)
    ensures
        r == decode_castle(f@),
{
    if is_single(f, '-') {
        return Ok(0);
    }
    let mut rights: u8 = 0;
    let mut i: usize = 0;
    while i < f.len()
        invariant
            i <= f@.len(),
            f@ != seq!['-'],
            rights_of(f@.take(i as int)) == Ok::<u8, FenError>(rights),
        decreases f@.len() - i,
    {
        let c = f[i];
        assert(f@.take(i as int + 1).drop_last() =~= f@.take(i as int));
        assert(f@.take(i as int + 1).last() == c);
        match castle_letter(c) {
            Some(right) => {
                rights = rights | right.bit();
            },
            None => {
                proof {
                    lemma_rights_err(f@, i as int + 1);
                }
                return Err(FenError::CastleChar(c));
            },
        }
        i += 1;
    }
    assert(f@.take(f@.len() as int) =~= f@);
    Ok(rights)
}

fn read_en_passant(f: &Vec<char>) -> (r: Result<Option<Square>, FenError>)
    ensures
        r == decode_en_passant(f@),
{
    if is_single(f, '-') {
        return Ok(None);
    }
    if f.len() == 2 {
        if let (Some(file), Some(row)) = (file_letter(f[0]), rank_digit(f[1])) {
            return Ok(Some(Square(row * 8 + file)));
        }
    }
    Err(FenError::EnPassant)
}

impl GameState {
    /// Decodes a position written in Forsyth-Edwards notation: board, side to move, castling
    /// rights and en-passant square; the move clocks, if present, are not read.
    pub fn from_fen(fen: &str) -> (r: Result<GameState, FenError>)
        ensures
            match decode_spec(fen@) {
                Ok(p) => r matches Ok(g) && g@ == p,
                Err(e) => r == Err::<GameState, FenError>(e),
            },
    {
        let f = split_fields(fen);
        let ghost fs = fields(fen@);
        assert(f@.len() == fs.len());
        if f.len() < 4 {
            return Err(FenError::MissingField);
        }
        assert(f@[0]@ == fs[0]);
        assert(f@[1]@ == fs[1]);
        assert(f@[2]@ == fs[2]);
        assert(f@[3]@ == fs[3]);
        let mut game = match read_board(&f[0]) {
            Ok(g) => g,
            Err(e) => {
                return Err(e);
            },
        };
        game.turn = match read_side(&f[1]) {
            Ok(s) => s,
            Err(e) => {
                return Err(e);
            },
        };
        game.castle_rights = match read_castle(&f[2]) {
            Ok(r) => r,
            Err(e) => {
                return Err(e);
            },
        };
        game.en_passant = match read_en_passant(&f[3]) {
            Ok(s) => s,
            Err(e) => {
                return Err(e);
            },
        };
        Ok(game)
    }
}

} // verus!
