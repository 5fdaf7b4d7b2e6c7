//! A turn-based, multi-seat card-game table engine: seating, chip custody
//! bookkeeping, strict turn order, multi-stage betting rounds, and pot
//! settlement at showdown. Each table is an isolated state machine; every
//! transition is validated before any mutation, and the monetary invariant
//! (no chips created or destroyed) is proved for every action.

pub mod state;
pub mod deck;
pub mod engine;
pub mod showdown;
pub mod lifecycle;

pub use crate::state::{
    ErrorCode, GameAuthority, PlayerState, Round, Table, TableStatus, TableView, EMPTY_SEAT,
};
pub use crate::deck::generate_shuffled_deck;
pub use crate::engine::{
    advance_to_next_player, bet, call, check, check_round_completion, count_active_players, fold,
};
pub use crate::showdown::{evaluate_poker_hand, showdown};
pub use crate::lifecycle::{
    create_table, initialize, join_table, leave_table, reset_table, start_game,
};
