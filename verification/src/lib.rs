//! Ledger, trading and card-game logic for a Discord prediction-market bot.

pub mod blackjack;
pub mod command;
pub mod cards;
pub mod catfishing;
pub mod currency;
pub mod db_text;
pub mod interaction;
pub mod leaderboard;
pub mod store;
pub mod table;
pub mod text;
pub mod trade;
pub mod portfolio;
pub mod ui;
