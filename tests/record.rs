use agon::model::{GameStatus, GameType, InvitationStatus};
use agon::record::{parse_record_id, SurrealId, Table};

#[derive(Debug)]
struct UserTable;

impl Table for UserTable {
    fn table_name() -> &'static str {
        "user"
    }
}

#[test]
fn record_id_keeps_the_bare_id() {
    let id: SurrealId<UserTable> = SurrealId::new("abc".to_string());
    assert_eq!(id.id(), "abc");
    assert_eq!(id.to_record_string(), "user:abc");
}

#[test]
fn record_id_reads_back_its_text_form() {
    let id = SurrealId::<UserTable>::from_record_str("user:abc").unwrap();
    assert_eq!(id.id(), "abc");
    let id = SurrealId::<UserTable>::from_record_str("user:a:b").unwrap();
    assert_eq!(id.id(), "a:b");
    assert!(SurrealId::<UserTable>::from_record_str("team:abc").is_none());
    assert!(SurrealId::<UserTable>::from_record_str("userabc").is_none());
}

#[test]
fn record_text_is_split_at_the_first_colon() {
    assert_eq!(parse_record_id("team", "team:x"), Some("x".to_string()));
    assert_eq!(parse_record_id("team", "team:"), Some("".to_string()));
    assert_eq!(parse_record_id("team", ":team"), None);
    assert_eq!(parse_record_id("", ":x"), Some("x".to_string()));
    assert_eq!(parse_record_id("team", "teams:x"), None);
}

#[test]
fn status_transitions() {
    assert!(GameStatus::Scheduled.can_transition_to(GameStatus::InProgress));
    assert!(GameStatus::Scheduled.can_transition_to(GameStatus::Cancelled));
    assert!(GameStatus::InProgress.can_transition_to(GameStatus::Completed));
    assert!(GameStatus::InProgress.can_transition_to(GameStatus::Cancelled));
    assert!(!GameStatus::Scheduled.can_transition_to(GameStatus::Completed));
    assert!(!GameStatus::Completed.can_transition_to(GameStatus::Scheduled));
    assert!(!GameStatus::Cancelled.can_transition_to(GameStatus::InProgress));
    assert_ne!(InvitationStatus::Pending, InvitationStatus::Accepted);
    assert_ne!(GameType::Tennis, GameType::Other);
}
