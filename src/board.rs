use vstd::prelude::*;
use vstd::string::StringExecFns;

verus! {

/// Whether bit `i` of `b` is set.
pub open spec fn bit(b: u64, i: u64) -> bool {
    (b >> i) & 1u64 == 1u64
}

pub proof fn lemma_bit_mask(b: u64, i: u64)
    requires
        i < 64,
    ensures
        ((b & (1u64 << i)) == (1u64 << i)) == (((b >> i) & 1u64) == 1u64),
{
    assert(((b & (1u64 << i)) == (1u64 << i)) == (((b >> i) & 1u64) == 1u64)) by (bit_vector)
        requires
            i < 64,
    ;
}

pub proof fn lemma_bit_flip(b: u64, i: u64, j: u64)
    requires
        i < 64,
        j < 64,
    ensures
        bit(b ^ (1u64 << i), j) == (if i == j { !bit(b, j) } else { bit(b, j) }),
{
    if i == j {
        assert((((b ^ (1u64 << i)) >> i) & 1u64 == 1u64) == !(((b >> i) & 1u64) == 1u64))
            by (bit_vector)
            requires
                i < 64,
        ;
    } else {
        assert((((b ^ (1u64 << i)) >> j) & 1u64 == 1u64) == (((b >> j) & 1u64) == 1u64))
            by (bit_vector)
            requires
                i < 64,
                j < 64,
                i != j,
        ;
    }
}

pub proof fn lemma_bit_or(a: u64, b: u64, j: u64)
    requires
        j < 64,
    ensures
        bit(a | b, j) == (bit(a, j) || bit(b, j)),
{
    assert((((a | b) >> j) & 1u64 == 1u64) == ((((a >> j) & 1u64) == 1u64) || (((b >> j) & 1u64)
        == 1u64))) by (bit_vector)
        requires
            j < 64,
    ;
}

pub proof fn lemma_bit_single(i: u64, j: u64)
    requires
        i < 64,
        j < 64,
    ensures
        bit(1u64 << i, j) == (i == j),
{
    assert((((1u64 << i) >> j) & 1u64 == 1u64) == (i == j)) by (bit_vector)
        requires
            i < 64,
            j < 64,
    ;
}

/// Clearing bit `i` of `b`: a flip when the bit is set, nothing when it is not.
pub proof fn lemma_bit_clear(b: u64, i: u64)
    requires
        i < 64,
    ensures
        bit(b, i) ==> b ^ (1u64 << i) == b & !(1u64 << i),
        !bit(b, i) ==> b == b & !(1u64 << i),
{
    assert(((b >> i) & 1u64 == 1u64) ==> b ^ (1u64 << i) == b & !(1u64 << i)) by (bit_vector)
        requires
            i < 64,
    ;
    assert(!((b >> i) & 1u64 == 1u64) ==> b == b & !(1u64 << i)) by (bit_vector)
        requires
            i < 64,
    ;
}

/// A square of the board, numbered 0..63 row by row from a8 (0) to h1 (63).
#[derive(Clone, Copy, PartialEq, Eq, Debug, Structural)]
pub struct Square(pub u8);

impl Square {
    pub open spec fn valid(self) -> bool {
        self.0 < 64
    }

    /// The file, 0 for the a-file up to 7 for the h-file.
    pub open spec fn file(self) -> int {
        self.0 as int % 8
    }

    /// The row counted from the top: 0 for rank 8 up to 7 for rank 1.
    pub open spec fn row(self) -> int {
        self.0 as int / 8
    }

    /// The square with the given index, or `None` when it is not below 64.
    pub fn new(index: u8) -> (r: Option<Square>)
        ensures
            r == (if index < 64 { Some(Square(index)) } else { None::<Square> }),
    {
        if index < 64 {
            Some(Square(index))
        } else {
            None
        }
    }

    pub fn index(&self) -> (r: u8)
        ensures
            r == self.0,
    {
        self.0
    }

    /// The square reached by one step in `dir`, or `None` where that step leaves the board.
    pub fn step(&self, dir: Direction) -> (r: Option<Square>)
        ensures
            r == step_spec(*self, dir),
            r matches Some(t) ==> t.valid(),
    {
        match dir {
            Direction::N => orth_step(*self, Direction::N),
            Direction::E => orth_step(*self, Direction::E),
            Direction::S => orth_step(*self, Direction::S),
            Direction::W => orth_step(*self, Direction::W),
            _ => {
                let (a, b) = dir_parts(dir);
                match orth_step(*self, a) {
                    None => None,
                    Some(t) => orth_step(t, b),
                }
            },
        }
    }
}

/// The letter of a file, `A` to `H`.
pub open spec fn file_name(file: int) -> Seq<char> {
    if file == 0 {
        "A"@
    } else if file == 1 {
        "B"@
    } else if file == 2 {
        "C"@
    } else if file == 3 {
        "D"@
    } else if file == 4 {
        "E"@
    } else if file == 5 {
        "F"@
    } else if file == 6 {
        "G"@
    } else {
        "H"@
    }
}

/// The digit of a row counted from the top: `8` for row 0 down to `1` for row 7.
pub open spec fn rank_name(row: int) -> Seq<char> {
    if row == 0 {
        "8"@
    } else if row == 1 {
        "7"@
    } else if row == 2 {
        "6"@
    } else if row == 3 {
        "5"@
    } else if row == 4 {
        "4"@
    } else if row == 5 {
        "3"@
    } else if row == 6 {
        "2"@
    } else {
        "1"@
    }
}

/// A square's name, file letter then rank digit, such as `E2`.
pub open spec fn square_name(sq: Square) -> Seq<char> {
    file_name(sq.file()) + rank_name(sq.row())
}

pub fn file_text(sq: Square) -> (r: &'static str)
    requires
        sq.valid(),
    ensures
        r@ == file_name(sq.file()),
{
    let f = sq.0 % 8;
    if f == 0 {
        "A"
    } else if f == 1 {
        "B"
    } else if f == 2 {
        "C"
    } else if f == 3 {
        "D"
    } else if f == 4 {
        "E"
    } else if f == 5 {
        "F"
    } else if f == 6 {
        "G"
    } else {
        "H"
    }
}

pub fn rank_text(sq: Square) -> (r: &'static str)
    requires
        sq.valid(),
    ensures
        r@ == rank_name(sq.row()),
{
    let row = sq.0 / 8;
    if row == 0 {
        "8"
    } else if row == 1 {
        "7"
    } else if row == 2 {
        "6"
    } else if row == 3 {
        "5"
    } else if row == 4 {
        "4"
    } else if row == 5 {
        "3"
    } else if row == 6 {
        "2"
    } else {
        "1"
    }
}

impl Square {
    /// The square's name, such as `E2`.
    pub fn name(&self) -> (r: String)
        requires
            self.valid(),
        ensures
            r@ == square_name(*self),
    {
        let mut s = String::from_str(file_text(*self));
        s.append(rank_text(*self));
        s
    }
}

#[derive(Clone, Copy, PartialEq, Eq, Debug, Structural)]
pub enum Direction {
    N,
    E,
    S,
    W,
    NE,
    SE,
    NW,
    SW,
}

/// The two orthogonal steps that make up a diagonal direction (the direction itself twice for
/// an orthogonal one).
pub open spec fn dir_parts_spec(dir: Direction) -> (Direction, Direction) {
    match dir {
        Direction::NE => (Direction::N, Direction::E),
        Direction::SE => (Direction::S, Direction::E),
        Direction::NW => (Direction::N, Direction::W),
        Direction::SW => (Direction::S, Direction::W),
        _ => (dir, dir),
    }
}

fn dir_parts(dir: Direction) -> (r: (Direction, Direction))
    ensures
        r == dir_parts_spec(dir),
{
    match dir {
        Direction::NE => (Direction::N, Direction::E),
        Direction::SE => (Direction::S, Direction::E),
        Direction::NW => (Direction::N, Direction::W),
        Direction::SW => (Direction::S, Direction::W),
        _ => (dir, dir),
    }
}

/// One orthogonal step; `None` off the board or from a square that is not on it.
pub open spec fn orth_step_spec(sq: Square, dir: Direction) -> Option<Square> {
    if !sq.valid() {
        None
    } else {
        match dir {
            Direction::N => if sq.0 < 8 { None } else { Some(Square((sq.0 - 8) as u8)) },
            Direction::S => if sq.0 >= 56 { None } else { Some(Square((sq.0 + 8) as u8)) },
            Direction::W => if sq.0 % 8 == 0 { None } else { Some(Square((sq.0 - 1) as u8)) },
            Direction::E => if sq.0 % 8 == 7 { None } else { Some(Square((sq.0 + 1) as u8)) },
            _ => None,
        }
    }
}

/// A step in any of the eight directions: a diagonal is its vertical step followed by its
/// horizontal one, and fails as soon as either does.
pub open spec fn step_spec(sq: Square, dir: Direction) -> Option<Square> {
    match dir {
        Direction::N | Direction::E | Direction::S | Direction::W => orth_step_spec(sq, dir),
        _ => match orth_step_spec(sq, dir_parts_spec(dir).0) {
            None => None,
            Some(t) => orth_step_spec(t, dir_parts_spec(dir).1),
        },
    }
}

fn orth_step(sq: Square, dir: Direction) -> (r: Option<Square>)
    ensures
        r == orth_step_spec(sq, dir),
        r matches Some(t) ==> t.valid(),
{
    if sq.0 >= 64 {
        return None;
    }
    match dir {
        Direction::N => if sq.0 < 8 { None } else { Some(Square(sq.0 - 8)) },
        Direction::S => if sq.0 >= 56 { None } else { Some(Square(sq.0 + 8)) },
        Direction::W => if sq.0 % 8 == 0 { None } else { Some(Square(sq.0 - 1)) },
        Direction::E => if sq.0 % 8 == 7 { None } else { Some(Square(sq.0 + 1)) },
        _ => None,
    }
}

/// How many more steps fit on the board from `sq` in `dir`; it drops with every step.
pub open spec fn room(sq: Square, dir: Direction) -> int {
    let vertical = match dir_parts_spec(dir).0 {
        Direction::N => sq.row(),
        Direction::S => 7 - sq.row(),
        _ => 0,
    };
    let horizontal = match dir_parts_spec(dir).1 {
        Direction::W => sq.file(),
        Direction::E => 7 - sq.file(),
        _ => 0,
    };
    vertical + horizontal
}

pub proof fn lemma_step_room(sq: Square, dir: Direction)
    ensures
        step_spec(sq, dir) matches Some(t) ==> t.valid() && 0 <= room(t, dir) < room(sq, dir),
{
}

/// A set of squares held as 64 bits, bit `i` standing for square `i`.
#[derive(Clone, Copy, PartialEq, Eq, Debug, Structural)]
pub struct BitBoard(pub u64);

impl BitBoard {
    pub open spec fn has(self, sq: Square) -> bool {
        bit(self.0, sq.0 as u64)
    }

    pub open spec fn flipped(self, sq: Square) -> BitBoard {
        BitBoard(self.0 ^ (1u64 << sq.0))
    }

    pub fn get(&self, square: Square) -> (r: bool)
        requires
            square.valid(),
        ensures
            r == self.has(square),
    {
        let mask = 1u64 << square.0;
        proof {
            lemma_bit_mask(self.0, square.0 as u64);
        }
        self.0 & mask == mask
    }

    /// The set of the given squares.
    pub fn from_squares(squares: Vec<u8>) -> (r: BitBoard)
        requires
            forall|i: int| 0 <= i < squares@.len() ==> #[trigger] squares@[i] < 64,
        ensures
            forall|s: Square| s.valid() ==> (#[trigger] r.has(s) <==> squares@.contains(s.0)),
    {
        let mut board: u64 = 0;
        let mut i: usize = 0;
        assert forall|s: Square| s.valid() implies !(#[trigger] bit(0u64, s.0 as u64)) by {
            let j = s.0 as u64;
            assert(((0u64 >> j) & 1u64 == 1u64) == false) by (bit_vector);
        }
        while i < squares.len()
            invariant
                i <= squares@.len(),
                forall|k: int| 0 <= k < squares@.len() ==> #[trigger] squares@[k] < 64,
                forall|s: Square|
                    s.valid() ==> (#[trigger] bit(board, s.0 as u64) <==> squares@.take(
                        i as int,
                    ).contains(s.0)),
            decreases squares@.len() - i,
        {
            let sq = squares[i];
            let ghost before = board;
            board = board | (1u64 << sq);
            assert forall|s: Square| s.valid() implies (#[trigger] bit(board, s.0 as u64)
                <==> squares@.take(i as int + 1).contains(s.0)) by {
                lemma_bit_or(before, 1u64 << sq, s.0 as u64);
                lemma_bit_single(sq as u64, s.0 as u64);
                let pre = squares@.take(i as int);
                let post = squares@.take(i as int + 1);
                assert(post =~= pre.push(sq));
                if pre.contains(s.0) {
                    let k = choose|k: int| 0 <= k < pre.len() && pre[k] == s.0;
                    assert(post[k] == s.0);
                }
                if sq == s.0 {
                    assert(post[i as int] == s.0);
                }
                if post.contains(s.0) {
                    let k = choose|k: int| 0 <= k < post.len() && post[k] == s.0;
                    if k < i {
                        assert(pre[k] == s.0);
                    }
                }
            }
            i += 1;
        }
        assert(squares@.take(squares@.len() as int) =~= squares@);
        BitBoard(board)
    }

    pub fn flip(&mut self, square: Square)
        requires
            square.valid(),
        ensures
            *final(self) == old(self).flipped(square),
    {
        let mask = 1u64 << square.0;
        self.0 = self.0 ^ mask;
    }
}

/// One of the four castling rights, each a bit of the rights mask.
#[derive(Clone, Copy, PartialEq, Eq, Debug, Structural)]
pub enum Castle {
    WhiteQueen,
    WhiteKing,
    BlackQueen,
    BlackKing,
}

pub const WHITE_QUEEN: u8 = 1;

pub const WHITE_KING: u8 = 2;

pub const BLACK_QUEEN: u8 = 4;

pub const BLACK_KING: u8 = 8;

impl Castle {
    pub open spec fn mask(self) -> u8 {
        match self {
            Castle::WhiteQueen => WHITE_QUEEN,
            Castle::WhiteKing => WHITE_KING,
            Castle::BlackQueen => BLACK_QUEEN,
            Castle::BlackKing => BLACK_KING,
        }
    }

    pub fn bit(self) -> (r: u8)
        ensures
            r == self.mask(),
    {
        match self {
            Castle::WhiteQueen => WHITE_QUEEN,
            Castle::WhiteKing => WHITE_KING,
            Castle::BlackQueen => BLACK_QUEEN,
            Castle::BlackKing => BLACK_KING,
        }
    }
}

#[derive(Clone, Copy, PartialEq, Eq, Debug, Structural)]
pub enum Sides {
    White,
    Black,
}

impl Sides {
    pub open spec fn other(self) -> Sides {
        match self {
            Sides::White => Sides::Black,
            Sides::Black => Sides::White,
        }
    }

    pub open spec fn ord(self) -> int {
        match self {
            Sides::White => 0,
            Sides::Black => 1,
        }
    }

    pub fn switch(self) -> (r: Self)
        ensures
            r == self.other(),
    {
        match self {
            Sides::White => Sides::Black,
            Sides::Black => Sides::White,
        }
    }

    pub fn index(self) -> (r: usize)
        ensures
            r == self.ord(),
    {
        match self {
            Sides::White => 0,
            Sides::Black => 1,
        }
    }
}

#[derive(Clone, Copy, PartialEq, Eq, Debug, Structural)]
pub enum Piece {
    Pawn,
    Rook,
    Knight,
    Bishop,
    Queen,
    King,
}

/// The canonical order of the piece types: Pawn, Rook, Knight, Bishop, Queen, King.
pub open spec fn piece_at(i: int) -> Piece {
    if i <= 0 {
        Piece::Pawn
    } else if i == 1 {
        Piece::Rook
    } else if i == 2 {
        Piece::Knight
    } else if i == 3 {
        Piece::Bishop
    } else if i == 4 {
        Piece::Queen
    } else {
        Piece::King
    }
}

impl Piece {
    pub open spec fn ord(self) -> int {
        match self {
            Piece::Pawn => 0,
            Piece::Rook => 1,
            Piece::Knight => 2,
            Piece::Bishop => 3,
            Piece::Queen => 4,
            Piece::King => 5,
        }
    }

    pub fn index(self) -> (r: usize)
        ensures
            r == self.ord(),
    {
        match self {
            Piece::Pawn => 0,
            Piece::Rook => 1,
            Piece::Knight => 2,
            Piece::Bishop => 3,
            Piece::Queen => 4,
            Piece::King => 5,
        }
    }

    /// The piece type at position `i` of the canonical order.
    pub fn nth(i: usize) -> (r: Piece)
        requires
            i < 6,
        ensures
            r == piece_at(i as int),
            r.ord() == i,
    {
        if i == 0 {
            Piece::Pawn
        } else if i == 1 {
            Piece::Rook
        } else if i == 2 {
            Piece::Knight
        } else if i == 3 {
            Piece::Bishop
        } else if i == 4 {
            Piece::Queen
        } else {
            Piece::King
        }
    }
}

/// Where the board of `piece` for `side` stands in the table of twelve.
pub open spec fn slot(side: Sides, piece: Piece) -> int {
    side.ord() * 6 + piece.ord()
}

fn slot_of(side: Sides, piece: Piece) -> (r: usize)
    ensures
        r == slot(side, piece),
        r < 12,
{
    side.index() * 6 + piece.index()
}

/// What a position is: twelve boards, the side to move, the rights mask and the square that
/// an en-passant capture may land on.
pub struct Position {
    pub boards: Seq<BitBoard>,
    pub turn: Sides,
    pub castle_rights: u8,
    pub en_passant: Option<Square>,
}

impl Position {
    pub open spec fn board(self, side: Sides, piece: Piece) -> BitBoard {
        self.boards[slot(side, piece)]
    }

    pub open spec fn occupies(self, side: Sides, piece: Piece, sq: Square) -> bool {
        self.board(side, piece).has(sq)
    }

    pub open spec fn has_right(self, c: Castle) -> bool {
        self.castle_rights & c.mask() != 0
    }
}

#[derive(Clone, Copy, Debug)]
pub struct GameState {
    pub state: [BitBoard; 12],
    pub turn: Sides,
    pub castle_rights: u8,
    pub en_passant: Option<Square>,
}

impl View for GameState {
    type V = Position;

    open spec fn view(&self) -> Position {
        Position {
            boards: self.state@,
            turn: self.turn,
            castle_rights: self.castle_rights,
            en_passant: self.en_passant,
        }
    }
}

impl GameState {
    /// A position with no pieces, White to move, no rights and no en-passant square.
    pub fn empty() -> (r: GameState)
        ensures
            forall|i: int| 0 <= i < 12 ==> #[trigger] r@.boards[i] == BitBoard(0),
            r@.boards.len() == 12,
            r.turn == Sides::White,
            r.castle_rights == 0,
            r.en_passant == None::<Square>,
    {
        GameState {
            state: [BitBoard(0); 12],
            turn: Sides::White,
            castle_rights: 0,
            en_passant: None,
        }
    }

    pub fn board(&self, side: Sides, piece: Piece) -> (r: &BitBoard)
        ensures
            *r == self@.board(side, piece),
    {
        &self.state[slot_of(side, piece)]
    }

    pub fn board_mut(&mut self, side: Sides, piece: Piece) -> (r: &mut BitBoard)
        ensures
            *r == old(self)@.board(side, piece),
            final(self).state@ == old(self).state@.update(slot(side, piece), *final(r)),
            final(self).turn == old(self).turn,
            final(self).castle_rights == old(self).castle_rights,
            final(self).en_passant == old(self).en_passant,
    {
        &mut self.state[slot_of(side, piece)]
    }
}

} // verus!
