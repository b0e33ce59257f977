//! A Freecell solitaire engine: cards, moves, the board with its legality
//! rules, seeded deals, undo through the move history, and play statistics.

pub mod board;
pub mod card;
pub mod cli;
pub mod deck;
pub mod gamestate;
pub mod moves;
pub mod stats;
