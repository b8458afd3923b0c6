/// Squares, directions, bitboards and the position table.
pub mod board;
/// Decoding positions from Forsyth-Edwards notation.
pub mod fen;
/// Moves: pseudo-legal generation, the legality filter, the state transition and perft.
pub mod moves;
/// Properties of move generation and of sequences of moves.
pub mod laws;
/// Occupancy: no square is ever held by two boards.
pub mod occupancy;
