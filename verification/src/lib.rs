//! Equipment data, board layouts, text parsing and report texts of a two-player
//! auto-battler, with the contracts they meet.
pub mod text;
pub mod num;
pub mod stars;
pub mod actions;
pub mod effects;
pub mod pending;
pub mod csv;
pub mod battle;
pub mod catalog;
pub mod board;
pub mod layout;
pub mod query;
pub mod star_report;
pub mod store;
