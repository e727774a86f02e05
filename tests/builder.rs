use agon::ledger::respond;
use agon::builder::{
    build_instance, BuiltInstance, GameInvitation, GroupMembers, InstanceRequest,
    InvitationTemplate, InviteTarget, TeamTemplate,
};
use agon::model::{DaoError, GameStatus, InvitationStatus};

fn team(id: &str, name: &str, position: i32) -> TeamTemplate {
    TeamTemplate {
        id: id.to_string(),
        template_id: "tpl".to_string(),
        name: name.to_string(),
        color: Some("red".to_string()),
        position,
    }
}

fn direct(team: &str, user: &str) -> InvitationTemplate {
    InvitationTemplate {
        id: format!("inv-{}-{}", team, user),
        template_id: "tpl".to_string(),
        team_template_id: team.to_string(),
        target: InviteTarget::Direct(user.to_string()),
    }
}

fn group(team: &str, g: &str) -> InvitationTemplate {
    InvitationTemplate {
        id: format!("inv-{}-{}", team, g),
        template_id: "tpl".to_string(),
        team_template_id: team.to_string(),
        target: InviteTarget::Group(g.to_string()),
    }
}

fn members(g: &str, users: &[&str]) -> GroupMembers {
    GroupMembers { group_id: g.to_string(), user_ids: users.iter().map(|u| u.to_string()).collect() }
}

fn request() -> InstanceRequest {
    InstanceRequest {
        game_id: "game-1".to_string(),
        template_id: "tpl".to_string(),
        recurring_game_id: Some("series-1".to_string()),
        scheduled_time: 1704736800,
        occurrence_date: Some(19730),
        created_at: 1704000000,
    }
}

fn ids(n: usize) -> Vec<String> {
    (0..n).map(|i| format!("game-team-{}", i)).collect()
}

fn invitation_of<'a>(b: &'a BuiltInstance, user: &str) -> &'a GameInvitation {
    let found: Vec<&GameInvitation> = b.invitations.iter().filter(|i| i.user_id == user).collect();
    assert_eq!(found.len(), 1);
    found[0]
}

#[test]
fn one_team_two_direct_invitees() {
    let teams = vec![team("t1", "Home", 1)];
    let invs = vec![direct("t1", "alice"), direct("t1", "bob")];
    let b = build_instance(&request(), &teams, &invs, &vec![], &ids(1)).unwrap();
    assert_eq!(b.game.id, "game-1");
    assert_eq!(b.game.template_id, "tpl");
    assert_eq!(b.game.recurring_game_id, Some("series-1".to_string()));
    assert_eq!(b.game.scheduled_time, 1704736800);
    assert_eq!(b.game.occurrence_date, Some(19730));
    assert_eq!(b.game.status, GameStatus::Scheduled);
    assert_eq!(b.teams.len(), 1);
    assert_eq!(b.teams[0].id, "game-team-0");
    assert_eq!(b.teams[0].game_id, "game-1");
    assert_eq!(b.teams[0].template_team_id, "t1");
    assert_eq!(b.teams[0].name, "Home");
    assert_eq!(b.teams[0].color, Some("red".to_string()));
    assert_eq!(b.teams[0].position, 1);
    assert_eq!(b.invitations.len(), 2);
    for (inv, user) in b.invitations.iter().zip(["alice", "bob"]) {
        assert_eq!(inv.user_id, user);
        assert_eq!(inv.game_id, "game-1");
        assert_eq!(inv.team_id, "game-team-0");
        assert_eq!(inv.group_id, None);
        assert_eq!(inv.status, InvitationStatus::Pending);
        assert_eq!(inv.invited_at, 1704000000);
        assert_eq!(inv.responded_at, None);
    }
    assert!(b.group_invitations.is_empty());
}

#[test]
fn group_of_three_expands_to_three_invitations() {
    let teams = vec![team("t1", "Home", 1)];
    let invs = vec![group("t1", "g1")];
    let ms = vec![members("g1", &["u1", "u2", "u3"])];
    let b = build_instance(&request(), &teams, &invs, &ms, &ids(1)).unwrap();
    assert_eq!(b.invitations.len(), 3);
    for (inv, user) in b.invitations.iter().zip(["u1", "u2", "u3"]) {
        assert_eq!(inv.user_id, user);
        assert_eq!(inv.team_id, "game-team-0");
        assert_eq!(inv.group_id, Some("g1".to_string()));
        assert_eq!(inv.status, InvitationStatus::Pending);
    }
    assert_eq!(b.group_invitations.len(), 1);
    assert_eq!(b.group_invitations[0].group_id, "g1");
    assert_eq!(b.group_invitations[0].game_id, "game-1");
    assert_eq!(b.group_invitations[0].invited_at, 1704000000);
}

#[test]
fn later_group_invitation_wins_over_direct() {
    let teams = vec![team("t1", "Home", 1), team("t2", "Away", 2)];
    // Stored out of order: the stable order still puts team t1 first.
    let invs = vec![group("t2", "g"), direct("t1", "u")];
    let ms = vec![members("g", &["u", "v"])];
    let b = build_instance(&request(), &teams, &invs, &ms, &ids(2)).unwrap();
    assert_eq!(b.invitations.len(), 2);
    let u = invitation_of(&b, "u");
    assert_eq!(u.team_id, "game-team-1");
    assert_eq!(u.group_id, Some("g".to_string()));
    let v = invitation_of(&b, "v");
    assert_eq!(v.team_id, "game-team-1");
}

#[test]
fn group_before_direct_within_a_team_then_later_team_wins() {
    let teams = vec![team("t1", "Home", 1), team("t2", "Away", 2)];
    let invs = vec![group("t1", "g"), direct("t1", "u"), direct("t2", "u")];
    let ms = vec![members("g", &["u"])];
    let b = build_instance(&request(), &teams, &invs, &ms, &ids(2)).unwrap();
    let u = invitation_of(&b, "u");
    assert_eq!(u.team_id, "game-team-1");
    assert_eq!(u.group_id, None);
}

#[test]
fn same_team_group_processed_after_direct() {
    let teams = vec![team("t1", "Home", 1)];
    let invs = vec![group("t1", "g"), direct("t1", "u")];
    let ms = vec![members("g", &["u"])];
    let b = build_instance(&request(), &teams, &invs, &ms, &ids(1)).unwrap();
    assert_eq!(invitation_of(&b, "u").group_id, Some("g".to_string()));
}

#[test]
fn zero_teams_build_an_empty_instance() {
    let b = build_instance(&request(), &vec![], &vec![], &vec![], &vec![]).unwrap();
    assert!(b.teams.is_empty());
    assert!(b.invitations.is_empty());
    assert!(b.group_invitations.is_empty());
    assert_eq!(b.game.id, "game-1");
}

#[test]
fn unknown_team_is_a_mapping_fault() {
    let teams = vec![team("t1", "Home", 1)];
    let invs = vec![direct("t1", "u"), direct("t9", "w")];
    let r = build_instance(&request(), &teams, &invs, &vec![], &ids(1));
    assert_eq!(r.unwrap_err(), DaoError::TeamMappingMissing);
}

#[test]
fn group_invited_twice_is_marked_once() {
    let teams = vec![team("t1", "Home", 1), team("t2", "Away", 2)];
    let invs = vec![group("t1", "g"), group("t2", "g"), group("t2", "empty")];
    let ms = vec![members("g", &["a", "b"])];
    let b = build_instance(&request(), &teams, &invs, &ms, &ids(2)).unwrap();
    let marked: Vec<&str> = b.group_invitations.iter().map(|m| m.group_id.as_str()).collect();
    assert_eq!(marked, vec!["g", "empty"]);
    assert_eq!(b.invitations.len(), 2);
    assert!(b.invitations.iter().all(|i| i.team_id == "game-team-1"));
}

#[test]
fn teams_are_copied_in_order() {
    let teams = vec![team("t1", "Home", 1), team("t2", "Away", 2), team("t3", "Bench", 3)];
    let b = build_instance(&request(), &teams, &vec![], &vec![], &ids(3)).unwrap();
    let names: Vec<&str> = b.teams.iter().map(|t| t.name.as_str()).collect();
    assert_eq!(names, vec!["Home", "Away", "Bench"]);
    let positions: Vec<i32> = b.teams.iter().map(|t| t.position).collect();
    assert_eq!(positions, vec![1, 2, 3]);
    assert_eq!(b.teams[2].id, "game-team-2");
}

fn pending(game: &str, user: &str) -> GameInvitation {
    GameInvitation {
        game_id: game.to_string(),
        user_id: user.to_string(),
        team_id: "team".to_string(),
        group_id: None,
        status: InvitationStatus::Pending,
        invited_at: 10,
        responded_at: None,
    }
}

#[test]
fn response_overwrites_and_ignores_others() {
    let mut ledger = vec![pending("g1", "u"), pending("g1", "v"), pending("g2", "u")];
    respond(&mut ledger, &"g1".to_string(), &"u".to_string(), InvitationStatus::Accepted, 20);
    assert_eq!(ledger[0].status, InvitationStatus::Accepted);
    assert_eq!(ledger[0].responded_at, Some(20));
    assert_eq!(ledger[0].invited_at, 10);
    assert_eq!(ledger[1].status, InvitationStatus::Pending);
    assert_eq!(ledger[2].status, InvitationStatus::Pending);
    respond(&mut ledger, &"g1".to_string(), &"u".to_string(), InvitationStatus::Declined, 30);
    assert_eq!(ledger[0].status, InvitationStatus::Declined);
    assert_eq!(ledger[0].responded_at, Some(30));
}

#[test]
fn response_without_invitation_changes_nothing() {
    let mut ledger = vec![pending("g1", "u")];
    respond(&mut ledger, &"g1".to_string(), &"nobody".to_string(), InvitationStatus::Accepted, 20);
    assert_eq!(ledger.len(), 1);
    assert_eq!(ledger[0].status, InvitationStatus::Pending);
    assert_eq!(ledger[0].responded_at, None);
}
