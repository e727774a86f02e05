//! Scheduling core of a sports matchmaking service: game templates, their
//! recurring series, and the materialization of concrete game instances.
//!
//! - `calendar`: days and instants in UTC.
//! - `recurrence`: recurring series and the planning of one materialization call.
//! - `templates`: game templates built from a game input.
//! - `builder`: one game instance built from a template, with its teams and
//!   invitations; `roster` holds the insert-or-overwrite rule behind them.
//! - `ledger`: responses to invitations.
//! - `laws`: properties that hold across calls.
//! - `ids`, `record`, `model`: identifiers and shared types.
pub mod builder;
pub mod calendar;
pub mod ids;
pub mod laws;
pub mod ledger;
pub mod model;
pub mod record;
pub mod recurrence;
pub mod roster;
pub mod templates;
