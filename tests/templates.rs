use agon::builder::InviteTarget;
use agon::ids::generate_id;
use agon::model::{DaoError, GameType};
use agon::templates::{create_template, CreateGameInput, CreateGameSchedule, CreateGameTeamInput};
use bigdecimal::BigDecimal;

fn input(title: &str, duration: i32, teams: Vec<CreateGameTeamInput>) -> CreateGameInput {
    CreateGameInput {
        created_by_user_id: "owner".to_string(),
        title: title.to_string(),
        game_type: GameType::Football5ASide,
        location_latitude: BigDecimal::from(51),
        location_longitude: BigDecimal::from(-1),
        location_name: Some("Park".to_string()),
        duration_minutes: duration,
        teams,
        schedule: CreateGameSchedule::OneOff { scheduled_time: 1704736800 },
    }
}

fn team_input(name: &str, users: &[&str], groups: &[&str]) -> CreateGameTeamInput {
    CreateGameTeamInput {
        name: name.to_string(),
        color: None,
        invited_user_ids: users.iter().map(|u| u.to_string()).collect(),
        invited_group_ids: groups.iter().map(|g| g.to_string()).collect(),
    }
}

#[test]
fn template_keeps_teams_and_invitations_in_order() {
    let teams = vec![team_input("Home", &["a", "b"], &["g"]), team_input("Away", &[], &["h"])];
    let rec = create_template(input("Friday five-a-side", 60, teams), 7).unwrap();
    assert_eq!(rec.template.title, "Friday five-a-side");
    assert_eq!(rec.template.game_type, GameType::Football5ASide);
    assert_eq!(rec.template.location_latitude, BigDecimal::from(51));
    assert_eq!(rec.template.location_longitude, BigDecimal::from(-1));
    assert_eq!(rec.template.location_name, Some("Park".to_string()));
    assert_eq!(rec.template.duration_minutes, 60);
    assert_eq!(rec.template.created_by_user_id, "owner");
    assert_eq!(rec.template.created_at, 7);
    assert_eq!(rec.template.updated_at, 7);
    assert_eq!(rec.teams.len(), 2);
    assert_eq!(rec.teams[0].name, "Home");
    assert_eq!(rec.teams[0].position, 1);
    assert_eq!(rec.teams[1].name, "Away");
    assert_eq!(rec.teams[1].position, 2);
    assert!(rec.teams.iter().all(|t| t.template_id == rec.template.id));
    assert_ne!(rec.teams[0].id, rec.teams[1].id);
    let rows: Vec<(String, InviteTarget)> =
        rec.invitations.iter().map(|i| (i.team_template_id.clone(), i.target.clone())).collect();
    let home = rec.teams[0].id.clone();
    let away = rec.teams[1].id.clone();
    assert_eq!(
        rows,
        vec![
            (home.clone(), InviteTarget::Direct("a".to_string())),
            (home.clone(), InviteTarget::Direct("b".to_string())),
            (home, InviteTarget::Group("g".to_string())),
            (away, InviteTarget::Group("h".to_string())),
        ]
    );
    assert!(rec.invitations.iter().all(|i| i.template_id == rec.template.id));
}

#[test]
fn template_without_teams() {
    let rec = create_template(input("Pickup", 0, vec![]), 1).unwrap();
    assert!(rec.teams.is_empty());
    assert!(rec.invitations.is_empty());
}

#[test]
fn empty_title_is_refused() {
    let r = create_template(input("", 60, vec![]), 1);
    assert_eq!(r.err(), Some(DaoError::InvalidInput));
}

#[test]
fn negative_duration_is_refused() {
    let r = create_template(input("Game", -5, vec![]), 1);
    assert_eq!(r.err(), Some(DaoError::InvalidInput));
}

#[test]
fn ids_are_url_safe_base64_of_eight_bytes() {
    let id = generate_id();
    assert_eq!(id.len(), 12);
    assert!(id.ends_with('='));
    assert!(id[..11].chars().all(|c| c.is_ascii_alphanumeric() || c == '-' || c == '_'));
    assert_ne!(generate_id(), generate_id());
}
