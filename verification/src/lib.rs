//! The rules-and-state engine of a falling-block puzzle game, with verified
//! contracts: the piece catalog and active piece (`tetromino`), the playfield
//! with collision, locking, line clearing, scoring and leveling, and the
//! tick-driven match state machine (`game`), and the high-score table with
//! its stored text form (`scoreboard`). Rendering, input polling and file
//! handling stay with the caller, which drives a match through
//! `game::Game::update` with one optional event and a clock reading per tick.

pub mod game;
pub mod scoreboard;
pub mod tetromino;
