//! Moteur de regles de la belote classique, verifie.
//!
//! Le crate expose une machine a etats deterministe qu'on pilote avec des
//! `Action` et qui produit des `Event`. L'etat se reconstruit integralement en
//! rejouant ces evenements.

pub mod card;
pub mod scoring;
pub mod state;
pub mod action;
pub mod event;
pub mod seqs;
pub mod text;
pub mod rules;
pub mod view;
pub mod bot;
pub mod deal_laws;
pub mod turns;
pub mod sim;
pub mod error;
pub mod accounts;
pub mod config;
pub mod auth;
pub mod tickets;
pub mod lobby;
pub mod table;
pub mod proto;
pub mod harness;

pub use action::{Action, RuleError};
pub use card::{Card, Rank, Suit};
pub use event::{Event, PublicEvent};
pub use state::{DealScore, GameState, Phase, PlayedCard, Seat, Team};
pub use view::{project, PlayerView};
