//! The card game: cards, combinations, the state of a table and its rules.
pub mod answers;
pub mod bot;
pub mod card;
pub mod chronicle;
pub mod combo;
pub mod course;
pub mod discard;
pub mod engine;
pub mod fairness;
pub mod habits;
pub mod lobby;
pub mod opponents;
pub mod room;
pub mod rulebook;
pub mod rules;
pub mod same;
pub mod sorting;
pub mod state;
pub mod turn;
