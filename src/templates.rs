use crate::builder::{copy_opt, opt_view, InvitationTemplate, InviteTarget, TeamTemplate};
use crate::ids::generate_id;
use crate::model::{DaoError, GameType};
use vstd::prelude::*;

verus! {

/// A decimal coordinate, carried through unchanged.
#[verifier::external_type_specification]
#[verifier::external_body]
pub struct ExBigDecimal(bigdecimal::BigDecimal);

/// A team of a game to create, with whom it invites.
pub struct CreateGameTeamInput {
    pub name: String,
    pub color: Option<String>,
    pub invited_user_ids: Vec<String>,
    pub invited_group_ids: Vec<String>,
}

/// When a game to create takes place: once, at an instant, or on a
/// recurrence expression from a start date to an optional end date.
pub enum CreateGameSchedule {
    OneOff { scheduled_time: i64 },
    Recurring { cron_schedule: String, start_date: i64, end_date: Option<i64> },
}

/// Everything needed to create a game.
pub struct CreateGameInput {
    pub created_by_user_id: String,
    pub title: String,
    pub game_type: GameType,
    pub location_latitude: bigdecimal::BigDecimal,
    pub location_longitude: bigdecimal::BigDecimal,
    pub location_name: Option<String>,
    pub duration_minutes: i32,
    pub teams: Vec<CreateGameTeamInput>,
    pub schedule: CreateGameSchedule,
}

/// A reusable blueprint of a game; immutable once created.
pub struct GameTemplate {
    pub id: String,
    pub title: String,
    pub game_type: GameType,
    pub location_latitude: bigdecimal::BigDecimal,
    pub location_longitude: bigdecimal::BigDecimal,
    pub location_name: Option<String>,
    pub duration_minutes: i32,
    pub created_by_user_id: String,
    pub created_at: i64,
    pub updated_at: i64,
}

/// A template with its team templates and invitation templates.
pub struct TemplateRecord {
    pub template: GameTemplate,
    pub teams: Vec<TeamTemplate>,
    pub invitations: Vec<InvitationTemplate>,
}

/// An invitation template seen as (team template id, whether it names a
/// group, the user or group id).
pub type InviteRow = (Seq<char>, bool, Seq<char>);

pub open spec fn invite_row(x: InvitationTemplate) -> InviteRow {
    match x.target {
        InviteTarget::Direct(u) => (x.team_template_id@, false, u@),
        InviteTarget::Group(g) => (x.team_template_id@, true, g@),
    }
}

pub open spec fn invite_rows(v: Seq<InvitationTemplate>) -> Seq<InviteRow> {
    v.map_values(|x: InvitationTemplate| invite_row(x))
}

/// The invitation rows of one team: its users, then its groups.
pub open spec fn team_rows(t: CreateGameTeamInput, team_id: Seq<char>) -> Seq<InviteRow> {
    t.invited_user_ids@.map_values(|u: String| (team_id, false, u@)) + t.invited_group_ids@.map_values(
        |g: String| (team_id, true, g@),
    )
}

/// The invitation rows of the first `i` teams, team by team.
pub open spec fn rows_upto(inputs: Seq<CreateGameTeamInput>, teams: Seq<TeamTemplate>, i: int) -> Seq<
    InviteRow,
>
    decreases i,
{
    if i <= 0 {
        seq![]
    } else {
        rows_upto(inputs, teams, i - 1) + team_rows(inputs[i - 1], teams[i - 1].id@)
    }
}

/// Whether a game input is structurally valid: a title, and a duration that
/// is not negative.
pub open spec fn input_valid(input: CreateGameInput) -> bool {
    input.title@.len() > 0 && input.duration_minutes >= 0
}

/// Creates a template from a game input: new ids for the template, each team
/// and each invitation; teams in input order with positions 1, 2, ...; for each
/// team, one invitation per invited user, then one per invited group.
pub fn create_template(input: CreateGameInput, now: i64) -> (r: Result<TemplateRecord, DaoError>)
    requires
        input.teams@.len() < i32::MAX,
    ensures
        r is Err <==> !input_valid(input),
        r matches Err(e) ==> e == DaoError::InvalidInput,
        r matches Ok(rec) ==> {
            &&& rec.template.title@ == input.title@
            &&& rec.template.game_type == input.game_type
            &&& rec.template.location_latitude == input.location_latitude
            &&& rec.template.location_longitude == input.location_longitude
            &&& opt_view(rec.template.location_name) == opt_view(input.location_name)
            &&& rec.template.duration_minutes == input.duration_minutes
            &&& rec.template.created_by_user_id@ == input.created_by_user_id@
            &&& rec.template.created_at == now
            &&& rec.template.updated_at == now
            &&& rec.teams@.len() == input.teams@.len()
            &&& forall|i: int|
                0 <= i < rec.teams@.len() ==> {
                    &&& (#[trigger] rec.teams@[i]).template_id@ == rec.template.id@
                    &&& rec.teams@[i].name@ == input.teams@[i].name@
                    &&& opt_view(rec.teams@[i].color) == opt_view(input.teams@[i].color)
                    &&& rec.teams@[i].position == i + 1
                }
            &&& invite_rows(rec.invitations@) == rows_upto(
                input.teams@,
                rec.teams@,
                input.teams@.len() as int,
            )
            &&& forall|k: int|
                0 <= k < rec.invitations@.len() ==> (#[trigger] rec.invitations@[k]).template_id@
                    == rec.template.id@
        },
{
    if input.title.as_str().unicode_len() == 0 || input.duration_minutes < 0 {
        return Err(DaoError::InvalidInput);
    }
    let ghost inputs = input.teams@;
    let template_id = generate_id();
    let mut teams: Vec<TeamTemplate> = Vec::new();
    let mut invitations: Vec<InvitationTemplate> = Vec::new();
    let mut i: usize = 0;
    while i < input.teams.len()
        invariant
            0 <= i <= input.teams@.len(),
            inputs == input.teams@,
            inputs.len() < i32::MAX,
            teams@.len() == i,
            forall|j: int|
                0 <= j < i ==> {
                    &&& (#[trigger] teams@[j]).template_id@ == template_id@
                    &&& teams@[j].name@ == inputs[j].name@
                    &&& opt_view(teams@[j].color) == opt_view(inputs[j].color)
                    &&& teams@[j].position == j + 1
                },
            invite_rows(invitations@) == rows_upto(inputs, teams@, i as int),
            forall|k: int|
                0 <= k < invitations@.len() ==> (#[trigger] invitations@[k]).template_id@
                    == template_id@,
        decreases input.teams@.len() - i,
    {
        let team_input = &input.teams[i];
        let team_id = generate_id();
        let ghost before_teams = teams@;
        teams.push(
            TeamTemplate {
                id: team_id.clone(),
                template_id: template_id.clone(),
                name: team_input.name.clone(),
                color: copy_opt(&team_input.color),
                position: (i + 1) as i32,
            },
        );
        proof {
            assert forall|j: int| 0 <= j < i implies teams@[j] == before_teams[j] by {}
            assert(rows_upto(inputs, teams@, i as int) == rows_upto(inputs, before_teams, i as int))
                by {
                lemma_rows_prefix(inputs, before_teams, teams@, i as int);
            }
        }
        let ghost base = invite_rows(invitations@);
        let users = &team_input.invited_user_ids;
        let mut k: usize = 0;
        while k < users.len()
            invariant
                0 <= k <= users@.len(),
                invite_rows(invitations@) == base + users@.map_values(
                    |u: String| (team_id@, false, u@),
                ).take(k as int),
                forall|m: int|
                    0 <= m < invitations@.len() ==> (#[trigger] invitations@[m]).template_id@
                        == template_id@,
            decreases users@.len() - k,
        {
            let ghost prev = invitations@;
            invitations.push(
                InvitationTemplate {
                    id: generate_id(),
                    template_id: template_id.clone(),
                    team_template_id: team_id.clone(),
                    target: InviteTarget::Direct(users[k].clone()),
                },
            );
            assert(invite_rows(invitations@) =~= invite_rows(prev).push(
                invite_row(invitations@.last()),
            ));
            assert(invite_rows(invitations@) =~= base + users@.map_values(
                |u: String| (team_id@, false, u@),
            ).take(k + 1));
            k = k + 1;
        }
        let ghost mid = invite_rows(invitations@);
        let groups = &team_input.invited_group_ids;
        k = 0;
        while k < groups.len()
            invariant
                0 <= k <= groups@.len(),
                invite_rows(invitations@) == mid + groups@.map_values(
                    |g: String| (team_id@, true, g@),
                ).take(k as int),
                forall|m: int|
                    0 <= m < invitations@.len() ==> (#[trigger] invitations@[m]).template_id@
                        == template_id@,
            decreases groups@.len() - k,
        {
            let ghost prev = invitations@;
            invitations.push(
                InvitationTemplate {
                    id: generate_id(),
                    template_id: template_id.clone(),
                    team_template_id: team_id.clone(),
                    target: InviteTarget::Group(groups[k].clone()),
                },
            );
            assert(invite_rows(invitations@) =~= invite_rows(prev).push(
                invite_row(invitations@.last()),
            ));
            assert(invite_rows(invitations@) =~= mid + groups@.map_values(
                |g: String| (team_id@, true, g@),
            ).take(k + 1));
            k = k + 1;
        }
        proof {
            assert(users@.map_values(|u: String| (team_id@, false, u@)).take(users@.len() as int)
                =~= users@.map_values(|u: String| (team_id@, false, u@)));
            assert(groups@.map_values(|g: String| (team_id@, true, g@)).take(groups@.len() as int)
                =~= groups@.map_values(|g: String| (team_id@, true, g@)));
            assert(teams@[i as int].id@ == team_id@);
            assert(invite_rows(invitations@) =~= rows_upto(inputs, teams@, i + 1));
        }
        i = i + 1;
    }
    let template = GameTemplate {
        id: template_id,
        title: input.title,
        game_type: input.game_type,
        location_latitude: input.location_latitude,
        location_longitude: input.location_longitude,
        location_name: input.location_name,
        duration_minutes: input.duration_minutes,
        created_by_user_id: input.created_by_user_id,
        created_at: now,
        updated_at: now,
    };
    Ok(TemplateRecord { template, teams, invitations })
}

/// The rows of the first `i` teams depend only on those teams.
proof fn lemma_rows_prefix(
    inputs: Seq<CreateGameTeamInput>,
    a: Seq<TeamTemplate>,
    b: Seq<TeamTemplate>,
    i: int,
)
    requires
        i <= a.len(),
        i <= b.len(),
        forall|j: int| 0 <= j < i ==> a[j] == b[j],
    ensures
        rows_upto(inputs, a, i) == rows_upto(inputs, b, i),
    decreases i,
{
    if i > 0 {
        lemma_rows_prefix(inputs, a, b, i - 1);
    }
}

} // verus!
