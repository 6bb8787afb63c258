//! Game logic for a small collection of board games: tic-tac-toe, gomoku,
//! chess and xiangqi, each with a computer opponent.

pub mod state;
pub mod ttt;
pub mod gomoku;
pub mod chess;
pub mod xiangqi;
pub mod game;
