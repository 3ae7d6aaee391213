//! Core of a multi-room Texas Hold'em system: cards and hand evaluation,
//! the per-room game engine, wire messages, what a client may see, and the
//! decisions of rooms and connections.

pub mod betting;
pub mod card;
pub mod checks;
pub mod client;
pub mod combos;
pub mod commands;
pub mod deck;
pub mod eval;
pub mod hand_laws;
pub mod ids;
pub mod labels;
pub mod laws;
pub mod message;
pub mod mirror;
pub mod pot_laws;
pub mod pots;
pub mod projection;
pub mod rank_order;
pub mod room;
pub mod seating;
pub mod session;
pub mod showdown;
pub mod start;
pub mod state;
pub mod streets;
pub mod text;

pub use betting::RuleViolation;
pub use card::{Card, HandRank, Rank, Suit};
pub use client::ClientState;
pub use combos::get_combinations;
pub use commands::{
    find_runs, login_command, parse_in_room_input, parse_login_input, room_command, split_words,
    LoginCommand,
};
pub use deck::{create_deck, deal_from_deck, generate_random_hand};
pub use eval::{evaluate_5_card_hand, find_best_hand, HandError};
pub use message::{ClientMessage, PlayerActionType, PlayerSecret, ServerMessage, ShowdownResult};
pub use pots::side_pot_winnings;
pub use room::{Arrival, Departure, Outcome, Room};
pub use seating::seat_taken;
pub use session::{audience, for_recipient, room_not_found, route, Audience, Route};
pub use start::StartRefusal;
pub use state::{GamePhase, GameState, Player, PlayerAction, PlayerId, PlayerState, RoomId};
pub use text::write_id;
