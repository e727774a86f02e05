use vstd::prelude::*;

verus! {

/// Errors surfaced by the scheduling core.
#[derive(Debug, Clone, PartialEq, Eq)]
pub enum DaoError {
    /// A template, series or game instance is missing.
    NotFound,
    /// A recurrence expression could not be parsed.
    InvalidExpression,
    /// An invitation template names a team template that the template lacks.
    TeamMappingMissing,
    /// A uniqueness conflict on an occurrence or an invitation.
    ConstraintViolation,
    /// A transient storage failure; the enclosing transaction may be retried.
    StoreUnavailable,
    /// A game input that is structurally invalid (no title, negative duration).
    InvalidInput,
    /// Any other internal failure, with a short description.
    InternalServerError(String),
}

/// Lifecycle of a game instance.
#[derive(Debug, Clone, Copy, PartialEq, Eq, Structural)]
pub enum GameStatus {
    Scheduled,
    InProgress,
    Completed,
    Cancelled,
}

/// Whether `from -> to` is one of the allowed status transitions:
/// Scheduled to InProgress or Cancelled, InProgress to Completed or Cancelled.
pub open spec fn status_transition_allowed(from: GameStatus, to: GameStatus) -> bool {
    match (from, to) {
        (GameStatus::Scheduled, GameStatus::InProgress) => true,
        (GameStatus::Scheduled, GameStatus::Cancelled) => true,
        (GameStatus::InProgress, GameStatus::Completed) => true,
        (GameStatus::InProgress, GameStatus::Cancelled) => true,
        _ => false,
    }
}

impl GameStatus {
    /// Whether the status may move from `self` to `next`.
    pub fn can_transition_to(&self, next: GameStatus) -> (r: bool)
        ensures
            r == status_transition_allowed(*self, next),
    {
        match (*self, next) {
            (GameStatus::Scheduled, GameStatus::InProgress) => true,
            (GameStatus::Scheduled, GameStatus::Cancelled) => true,
            (GameStatus::InProgress, GameStatus::Completed) => true,
            (GameStatus::InProgress, GameStatus::Cancelled) => true,
            _ => false,
        }
    }
}

/// Response state of a game invitation.
#[derive(Debug, Clone, Copy, PartialEq, Eq, Structural)]
pub enum InvitationStatus {
    Pending,
    Accepted,
    Declined,
}

/// Sport or category of a game.
#[derive(Debug, Clone, Copy, PartialEq, Eq, Structural)]
pub enum GameType {
    Football5ASide,
    Football11ASide,
    Basketball,
    Tennis,
    Badminton,
    Cricket,
    Rugby,
    Hockey,
    Other,
}

} // verus!
