//! Game logic of an online Decrypto server: teams, rounds, scoring and the
//! messages that the server sends to connected players.

pub mod collections;
pub mod state;
pub mod text;
pub mod messages;
pub mod random;
pub mod decrypto;
pub mod utils;
pub mod lobby;
pub mod game;
pub mod laws;
pub mod wire;
pub mod rules;
