use crate::model::{DaoError, GameStatus, InvitationStatus};
use crate::roster::{apply_all, distinct_users, lemma_position_unique, upsert, user_at, Assign};
use vstd::prelude::*;

verus! {

/// Whom an invitation template reaches: one user, or every member of a group.
#[derive(Debug, Clone, PartialEq, Eq)]
pub enum InviteTarget {
    Direct(String),
    Group(String),
}

/// A team of a game template.
#[derive(Debug, Clone)]
pub struct TeamTemplate {
    pub id: String,
    pub template_id: String,
    pub name: String,
    pub color: Option<String>,
    /// 1-based position, in input order.
    pub position: i32,
}

/// An invitation of a game template, attached to one of its teams.
#[derive(Debug, Clone)]
pub struct InvitationTemplate {
    pub id: String,
    pub template_id: String,
    pub team_template_id: String,
    pub target: InviteTarget,
}

/// The members of a group, as read when an instance is built.
#[derive(Debug, Clone)]
pub struct GroupMembers {
    pub group_id: String,
    pub user_ids: Vec<String>,
}

/// What identifies and schedules a new game instance.
#[derive(Debug, Clone)]
pub struct InstanceRequest {
    pub game_id: String,
    pub template_id: String,
    pub recurring_game_id: Option<String>,
    pub scheduled_time: i64,
    /// The occurrence date for an instance of a series; `None` for a one-off.
    pub occurrence_date: Option<i64>,
    pub created_at: i64,
}

/// A concrete game, materialized from a template.
#[derive(Debug, Clone)]
pub struct GameInstance {
    pub id: String,
    pub template_id: String,
    pub recurring_game_id: Option<String>,
    pub scheduled_time: i64,
    pub occurrence_date: Option<i64>,
    pub status: GameStatus,
    pub created_at: i64,
}

/// A team of a game instance, copied from a team template.
#[derive(Debug, Clone)]
pub struct GameTeam {
    pub id: String,
    pub game_id: String,
    pub template_team_id: String,
    pub name: String,
    pub color: Option<String>,
    pub position: i32,
    pub created_at: i64,
}

/// The invitation of one user to one game instance.
#[derive(Debug, Clone)]
pub struct GameInvitation {
    pub game_id: String,
    pub user_id: String,
    pub team_id: String,
    /// The group through which the user was reached; `None` if invited directly.
    pub group_id: Option<String>,
    pub status: InvitationStatus,
    pub invited_at: i64,
    pub responded_at: Option<i64>,
}

/// Records that a group as a whole was invited to a game instance.
#[derive(Debug, Clone)]
pub struct GroupGameInvitation {
    pub game_id: String,
    pub group_id: String,
    pub invited_at: i64,
}

/// Everything that building one instance writes.
#[derive(Debug, Clone)]
pub struct BuiltInstance {
    pub game: GameInstance,
    pub teams: Vec<GameTeam>,
    pub invitations: Vec<GameInvitation>,
    pub group_invitations: Vec<GroupGameInvitation>,
}

/// The text of an optional string.
pub open spec fn opt_view(o: Option<String>) -> Option<Seq<char>> {
    match o {
        Some(s) => Some(s@),
        None => None,
    }
}

/// `k` is the first team template with id `id`.
pub open spec fn is_first_team(teams: Seq<TeamTemplate>, id: Seq<char>, k: int) -> bool {
    &&& 0 <= k < teams.len()
    &&& teams[k].id@ == id
    &&& forall|j: int| 0 <= j < k ==> teams[j].id@ != id
}

pub open spec fn has_team(teams: Seq<TeamTemplate>, id: Seq<char>) -> bool {
    exists|k: int| 0 <= k < teams.len() && teams[k].id@ == id
}

/// The position of the team template that an invitation template refers to.
pub open spec fn team_slot(teams: Seq<TeamTemplate>, id: Seq<char>) -> int {
    choose|k: int| is_first_team(teams, id, k)
}

/// `k` is the first membership entry of group `g`.
pub open spec fn is_first_group(ms: Seq<GroupMembers>, g: Seq<char>, k: int) -> bool {
    &&& 0 <= k < ms.len()
    &&& ms[k].group_id@ == g
    &&& forall|j: int| 0 <= j < k ==> ms[j].group_id@ != g
}

/// The current members of group `g`; none when the group is not listed.
pub open spec fn members_of(ms: Seq<GroupMembers>, g: Seq<char>) -> Seq<String> {
    if exists|k: int| is_first_group(ms, g, k) {
        ms[choose|k: int| is_first_group(ms, g, k)].user_ids@
    } else {
        seq![]
    }
}

/// Whether invitation template `inv` belongs to team `i`.
pub open spec fn on_team(teams: Seq<TeamTemplate>, inv: InvitationTemplate, i: int) -> bool {
    has_team(teams, inv.team_template_id@) && team_slot(teams, inv.team_template_id@) == i
}

/// The decisions of the direct invitations of team `i` among the first `k`
/// invitation templates, in their order.
pub open spec fn direct_assigns(
    invs: Seq<InvitationTemplate>,
    teams: Seq<TeamTemplate>,
    team_ids: Seq<String>,
    i: int,
    k: int,
) -> Seq<Assign>
    decreases k,
{
    if k <= 0 {
        seq![]
    } else {
        let prev = direct_assigns(invs, teams, team_ids, i, k - 1);
        let inv = invs[k - 1];
        if on_team(teams, inv, i) {
            match inv.target {
                InviteTarget::Direct(u) => prev.push((u@, team_ids[i]@, None)),
                InviteTarget::Group(_) => prev,
            }
        } else {
            prev
        }
    }
}

/// The decisions for the members of group `g`, joining game team `team`.
pub open spec fn member_assigns(members: Seq<String>, team: Seq<char>, g: Seq<char>) -> Seq<
    Assign,
> {
    members.map_values(|m: String| (m@, team, Some(g)))
}

/// The decisions of the group invitations of team `i` among the first `k`
/// invitation templates, in their order, each expanded to the group's members.
pub open spec fn group_assigns(
    invs: Seq<InvitationTemplate>,
    teams: Seq<TeamTemplate>,
    team_ids: Seq<String>,
    ms: Seq<GroupMembers>,
    i: int,
    k: int,
) -> Seq<Assign>
    decreases k,
{
    if k <= 0 {
        seq![]
    } else {
        let prev = group_assigns(invs, teams, team_ids, ms, i, k - 1);
        let inv = invs[k - 1];
        if on_team(teams, inv, i) {
            match inv.target {
                InviteTarget::Group(g) => prev + member_assigns(members_of(ms, g@), team_ids[i]@, g@),
                InviteTarget::Direct(_) => prev,
            }
        } else {
            prev
        }
    }
}

/// All decisions for teams `0 .. i`, in the stable processing order: team by
/// team, and within a team direct invitations before group invitations.
pub open spec fn assigns_upto(
    invs: Seq<InvitationTemplate>,
    teams: Seq<TeamTemplate>,
    team_ids: Seq<String>,
    ms: Seq<GroupMembers>,
    i: int,
) -> Seq<Assign>
    decreases i,
{
    if i <= 0 {
        seq![]
    } else {
        assigns_upto(invs, teams, team_ids, ms, i - 1) + direct_assigns(
            invs,
            teams,
            team_ids,
            i - 1,
            invs.len() as int,
        ) + group_assigns(invs, teams, team_ids, ms, i - 1, invs.len() as int)
    }
}

/// The group ids invited to team `i` among the first `k` invitation templates.
pub open spec fn groups_of_team(
    invs: Seq<InvitationTemplate>,
    teams: Seq<TeamTemplate>,
    i: int,
    k: int,
) -> Seq<Seq<char>>
    decreases k,
{
    if k <= 0 {
        seq![]
    } else {
        let prev = groups_of_team(invs, teams, i, k - 1);
        let inv = invs[k - 1];
        if on_team(teams, inv, i) {
            match inv.target {
                InviteTarget::Group(g) => prev.push(g@),
                InviteTarget::Direct(_) => prev,
            }
        } else {
            prev
        }
    }
}

/// The group ids invited to teams `0 .. i`, in processing order.
pub open spec fn groups_upto(
    invs: Seq<InvitationTemplate>,
    teams: Seq<TeamTemplate>,
    i: int,
) -> Seq<Seq<char>>
    decreases i,
{
    if i <= 0 {
        seq![]
    } else {
        groups_upto(invs, teams, i - 1) + groups_of_team(invs, teams, i - 1, invs.len() as int)
    }
}

/// Each id once, in order of first appearance.
pub open spec fn dedup(s: Seq<Seq<char>>) -> Seq<Seq<char>>
    decreases s.len(),
{
    if s.len() == 0 {
        seq![]
    } else {
        let d = dedup(s.drop_last());
        if d.contains(s.last()) {
            d
        } else {
            d.push(s.last())
        }
    }
}

/// The invitation decisions held by a list of game invitations.
pub open spec fn inv_view(v: Seq<GameInvitation>) -> Seq<Assign> {
    v.map_values(|x: GameInvitation| (x.user_id@, x.team_id@, opt_view(x.group_id)))
}

/// The group ids of a list of group invitations.
pub open spec fn group_view(v: Seq<GroupGameInvitation>) -> Seq<Seq<char>> {
    v.map_values(|x: GroupGameInvitation| x.group_id@)
}

/// Every invitation is a fresh, pending one of game `game` made at `now`.
pub open spec fn fresh_invitations(v: Seq<GameInvitation>, game: Seq<char>, now: i64) -> bool {
    forall|i: int|
        0 <= i < v.len() ==> {
            &&& (#[trigger] v[i]).game_id@ == game
            &&& v[i].status == InvitationStatus::Pending
            &&& v[i].invited_at == now
            &&& v[i].responded_at is None
        }
}

/// Every group invitation is one of game `game` made at `now`.
pub open spec fn fresh_group_invitations(v: Seq<GroupGameInvitation>, game: Seq<char>, now: i64) -> bool {
    forall|i: int|
        0 <= i < v.len() ==> (#[trigger] v[i]).game_id@ == game && v[i].invited_at == now
}

/// Team `t` is the copy of team template `tt` as game team `id` of game `game`.
pub open spec fn team_copied(t: GameTeam, tt: TeamTemplate, id: String, game: String, now: i64) -> bool {
    &&& t.id@ == id@
    &&& t.game_id@ == game@
    &&& t.template_team_id@ == tt.id@
    &&& t.name@ == tt.name@
    &&& opt_view(t.color) == opt_view(tt.color)
    &&& t.position == tt.position
    &&& t.created_at == now
}

pub(crate) fn copy_opt(o: &Option<String>) -> (r: Option<String>)
    ensures
        r == *o,
        opt_view(r) == opt_view(*o),
{
    match o {
        Some(s) => Some(s.clone()),
        None => None,
    }
}

fn find_team(teams: &Vec<TeamTemplate>, id: &String) -> (r: Option<usize>)
    ensures
        match r {
            Some(k) => is_first_team(teams@, id@, k as int),
            None => !has_team(teams@, id@),
        },
{
    let mut i: usize = 0;
    while i < teams.len()
        invariant
            0 <= i <= teams.len(),
            forall|j: int| 0 <= j < i ==> teams@[j].id@ != id@,
        decreases teams.len() - i,
    {
        if teams[i].id == *id {
            return Some(i);
        }
        i = i + 1;
    }
    None
}

fn find_group(ms: &Vec<GroupMembers>, g: &String) -> (r: Option<usize>)
    ensures
        match r {
            Some(k) => is_first_group(ms@, g@, k as int),
            None => !(exists|k: int| is_first_group(ms@, g@, k)),
        },
{
    let mut i: usize = 0;
    while i < ms.len()
        invariant
            0 <= i <= ms.len(),
            forall|j: int| 0 <= j < i ==> ms@[j].group_id@ != g@,
        decreases ms.len() - i,
    {
        if ms[i].group_id == *g {
            return Some(i);
        }
        i = i + 1;
    }
    None
}

proof fn lemma_first_team_unique(teams: Seq<TeamTemplate>, id: Seq<char>, k: int)
    requires
        is_first_team(teams, id, k),
    ensures
        team_slot(teams, id) == k,
        has_team(teams, id),
{
    let j = team_slot(teams, id);
    assert(is_first_team(teams, id, j));
    if j < k {
        assert(teams[j].id@ != id);
    } else if j > k {
        assert(teams[k].id@ != id);
    }
}

proof fn lemma_first_group_unique(ms: Seq<GroupMembers>, g: Seq<char>, k: int)
    requires
        is_first_group(ms, g, k),
    ensures
        members_of(ms, g) == ms[k].user_ids@,
{
    let j = choose|j: int| is_first_group(ms, g, j);
    assert(is_first_group(ms, g, j));
    if j < k {
        assert(ms[j].group_id@ != g);
    } else if j > k {
        assert(ms[k].group_id@ != g);
    }
}

/// Records the invitation of `user` to team `team`, reached through `group`:
/// an existing invitation of that user has its team and group overwritten.
fn upsert_invitation(
    invs: &mut Vec<GameInvitation>,
    user: &String,
    team: &String,
    group: &Option<String>,
    game_id: &String,
    now: i64,
)
    requires
        distinct_users(inv_view(old(invs)@)),
        fresh_invitations(old(invs)@, game_id@, now),
    ensures
        inv_view(final(invs)@) == upsert(inv_view(old(invs)@), (user@, team@, opt_view(*group))),
        distinct_users(inv_view(final(invs)@)),
        fresh_invitations(final(invs)@, game_id@, now),
{
    let ghost s = inv_view(invs@);
    let ghost a: Assign = (user@, team@, opt_view(*group));
    let mut i: usize = 0;
    while i < invs.len()
        invariant
            0 <= i <= invs.len(),
            s == inv_view(invs@),
            s == inv_view(old(invs)@),
            a == (user@, team@, opt_view(*group)),
            distinct_users(s),
            fresh_invitations(invs@, game_id@, now),
            forall|j: int| 0 <= j < i ==> invs@[j].user_id@ != user@,
        decreases invs.len() - i,
    {
        if invs[i].user_id == *user {
            let inv = GameInvitation {
                game_id: game_id.clone(),
                user_id: user.clone(),
                team_id: team.clone(),
                group_id: copy_opt(group),
                status: InvitationStatus::Pending,
                invited_at: now,
                responded_at: None,
            };
            proof {
                assert(user_at(s, user@, i as int));
                lemma_position_unique(s, user@, i as int);
            }
            let ghost g = inv;
            assert(g.user_id@ == user@ && g.team_id@ == team@ && opt_view(g.group_id) == opt_view(*group));
            invs.set(i, inv);
            proof {
                assert(invs@[i as int] == g);
                assert(inv_view(invs@)[i as int] == a);
                assert(inv_view(invs@) =~= s.update(i as int, a));
                assert(user_at(s, a.0, i as int));
                assert(upsert(s, a) == s.update(i as int, a));
                assert forall|j: int, k: int|
                    0 <= j < k < inv_view(invs@).len() implies inv_view(invs@)[j].0 != inv_view(
                    invs@,
                )[k].0 by {
                    assert(s[j].0 != s[k].0);
                }
            }
            return;
        }
        i = i + 1;
    }
    invs.push(
        GameInvitation {
            game_id: game_id.clone(),
            user_id: user.clone(),
            team_id: team.clone(),
            group_id: copy_opt(group),
            status: InvitationStatus::Pending,
            invited_at: now,
            responded_at: None,
        },
    );
    proof {
        assert(!(exists|k: int| user_at(s, user@, k)));
        assert(inv_view(invs@) =~= s.push(a));
        assert forall|j: int, k: int|
            0 <= j < k < inv_view(invs@).len() implies inv_view(invs@)[j].0 != inv_view(
            invs@,
        )[k].0 by {
            if k == s.len() {
                assert(!user_at(s, user@, j));
            } else {
                assert(s[j].0 != s[k].0);
            }
        }
    }
}

/// `b` is the instance that `req` and the template (teams, invitation
/// templates) yield, with the given group memberships and new team ids.
pub open spec fn built_as(
    b: BuiltInstance,
    req: InstanceRequest,
    teams: Seq<TeamTemplate>,
    invs: Seq<InvitationTemplate>,
    ms: Seq<GroupMembers>,
    team_ids: Seq<String>,
) -> bool {
    &&& b.game.id@ == req.game_id@
    &&& b.game.template_id@ == req.template_id@
    &&& opt_view(b.game.recurring_game_id) == opt_view(req.recurring_game_id)
    &&& b.game.scheduled_time == req.scheduled_time
    &&& b.game.occurrence_date == req.occurrence_date
    &&& b.game.status == GameStatus::Scheduled
    &&& b.game.created_at == req.created_at
    &&& b.teams@.len() == teams.len()
    &&& forall|i: int|
        0 <= i < teams.len() ==> team_copied(
            #[trigger] b.teams@[i],
            teams[i],
            team_ids[i],
            req.game_id,
            req.created_at,
        )
    &&& inv_view(b.invitations@) == apply_all(
        seq![],
        assigns_upto(invs, teams, team_ids, ms, teams.len() as int),
    )
    &&& fresh_invitations(b.invitations@, req.game_id@, req.created_at)
    &&& group_view(b.group_invitations@) == dedup(groups_upto(invs, teams, teams.len() as int))
    &&& fresh_group_invitations(b.group_invitations@, req.game_id@, req.created_at)
}

/// Whether some invitation template names a team that the template lacks.
pub open spec fn mapping_missing(teams: Seq<TeamTemplate>, invs: Seq<InvitationTemplate>) -> bool {
    exists|k: int| 0 <= k < invs.len() && !has_team(teams, #[trigger] invs[k].team_template_id@)
}

fn add_group_invitation(
    marks: &mut Vec<GroupGameInvitation>,
    g: &String,
    game_id: &String,
    now: i64,
)
    requires
        fresh_group_invitations(old(marks)@, game_id@, now),
    ensures
        group_view(final(marks)@) == if group_view(old(marks)@).contains(g@) {
            group_view(old(marks)@)
        } else {
            group_view(old(marks)@).push(g@)
        },
        fresh_group_invitations(final(marks)@, game_id@, now),
{
    let mut i: usize = 0;
    while i < marks.len()
        invariant
            0 <= i <= marks.len(),
            marks@ == old(marks)@,
            fresh_group_invitations(marks@, game_id@, now),
            forall|j: int| 0 <= j < i ==> marks@[j].group_id@ != g@,
        decreases marks.len() - i,
    {
        if marks[i].group_id == *g {
            assert(group_view(marks@)[i as int] == g@);
            assert(group_view(marks@).contains(g@));
            return;
        }
        i = i + 1;
    }
    let ghost before = group_view(marks@);
    assert(!before.contains(g@)) by {
        if before.contains(g@) {
            let j = choose|j: int| 0 <= j < before.len() && before[j] == g@;
            assert(marks@[j].group_id@ == g@);
        }
    }
    marks.push(GroupGameInvitation { game_id: game_id.clone(), group_id: g.clone(), invited_at: now });
    assert(group_view(marks@) =~= before.push(g@));
}

/// Builds one game instance from a template: the instance itself, one game
/// team per team template (in the given order, with the given new ids), and
/// the invitations. Invitation templates are processed team by team, direct
/// invitations before group invitations; a group is expanded into its current
/// members and recorded once as invited. A user reached twice keeps a single
/// invitation, with the team and group of the last one processed.
pub fn build_instance(
    req: &InstanceRequest,
    teams: &Vec<TeamTemplate>,
    invitations: &Vec<InvitationTemplate>,
    memberships: &Vec<GroupMembers>,
    team_ids: &Vec<String>,
) -> (r: Result<BuiltInstance, DaoError>)
    requires
        team_ids.len() == teams.len(),
    ensures
        r is Err <==> mapping_missing(teams@, invitations@),
        r matches Err(e) ==> e == DaoError::TeamMappingMissing,
        r matches Ok(b) ==> built_as(b, *req, teams@, invitations@, memberships@, team_ids@),
        teams.len() == 0 && invitations.len() == 0 ==> (r matches Ok(b) && b.teams.len() == 0
            && b.invitations.len() == 0 && b.group_invitations.len() == 0),
{
    let ghost tv = teams@;
    let ghost iv = invitations@;
    let ghost msv = memberships@;
    let ghost idv = team_ids@;
    let n = invitations.len();
    // Resolve each invitation template's team before writing anything.
    let mut slots: Vec<usize> = Vec::new();
    let mut k: usize = 0;
    while k < n
        invariant
            0 <= k <= n,
            n == iv.len(),
            iv == invitations@,
            tv == teams@,
            slots.len() == k,
            forall|j: int|
                #![trigger iv[j]]
                #![trigger slots@[j]]
                0 <= j < k ==> has_team(tv, iv[j].team_template_id@) && team_slot(
                    tv,
                    iv[j].team_template_id@,
                ) == slots@[j] as int,
        decreases n - k,
    {
        match find_team(teams, &invitations[k].team_template_id) {
            Some(t) => {
                proof {
                    lemma_first_team_unique(tv, iv[k as int].team_template_id@, t as int);
                }
                slots.push(t);
            },
            None => {
                assert(!has_team(tv, iv[k as int].team_template_id@));
                return Err(DaoError::TeamMappingMissing);
            },
        }
        k = k + 1;
    }
    assert(!mapping_missing(tv, iv));
    let game = GameInstance {
        id: req.game_id.clone(),
        template_id: req.template_id.clone(),
        recurring_game_id: copy_opt(&req.recurring_game_id),
        scheduled_time: req.scheduled_time,
        occurrence_date: req.occurrence_date,
        status: GameStatus::Scheduled,
        created_at: req.created_at,
    };
    let now = req.created_at;
    let mut game_teams: Vec<GameTeam> = Vec::new();
    let mut i: usize = 0;
    while i < teams.len()
        invariant
            0 <= i <= teams.len(),
            tv == teams@,
            idv == team_ids@,
            idv.len() == tv.len(),
            game_teams.len() == i,
            forall|j: int|
                0 <= j < i ==> team_copied(
                    #[trigger] game_teams@[j],
                    tv[j],
                    idv[j],
                    req.game_id,
                    now,
                ),
        decreases teams.len() - i,
    {
        let tt = &teams[i];
        game_teams.push(
            GameTeam {
                id: team_ids[i].clone(),
                game_id: req.game_id.clone(),
                template_team_id: tt.id.clone(),
                name: tt.name.clone(),
                color: copy_opt(&tt.color),
                position: tt.position,
                created_at: now,
            },
        );
        i = i + 1;
    }
    let mut invs: Vec<GameInvitation> = Vec::new();
    let mut marks: Vec<GroupGameInvitation> = Vec::new();
    let ghost mut done: Seq<Assign> = seq![];
    assert(inv_view(invs@) =~= seq![]);
    assert(group_view(marks@) =~= seq![]);
    i = 0;
    while i < teams.len()
        invariant
            0 <= i <= teams.len(),
            n == iv.len(),
            iv == invitations@,
            tv == teams@,
            msv == memberships@,
            idv == team_ids@,
            idv.len() == tv.len(),
            slots.len() == n,
            forall|j: int|
                #![trigger iv[j]]
                #![trigger slots@[j]]
                0 <= j < n ==> has_team(tv, iv[j].team_template_id@) && team_slot(
                    tv,
                    iv[j].team_template_id@,
                ) == slots@[j] as int,
            done == assigns_upto(iv, tv, idv, msv, i as int),
            inv_view(invs@) == apply_all(seq![], done),
            distinct_users(inv_view(invs@)),
            fresh_invitations(invs@, req.game_id@, now),
            group_view(marks@) == dedup(groups_upto(iv, tv, i as int)),
            fresh_group_invitations(marks@, req.game_id@, now),
        decreases teams.len() - i,
    {
        let ghost base = done;
        // Direct invitations of this team.
        let mut k: usize = 0;
        while k < n
            invariant
                0 <= k <= n,
                0 <= i < tv.len(),
                n == iv.len(),
                iv == invitations@,
                tv == teams@,
                idv == team_ids@,
                idv.len() == tv.len(),
                slots.len() == n,
                forall|j: int|
                    #![trigger iv[j]]
                    #![trigger slots@[j]]
                    0 <= j < n ==> has_team(tv, iv[j].team_template_id@) && team_slot(
                        tv,
                        iv[j].team_template_id@,
                    ) == slots@[j] as int,
                done == base + direct_assigns(iv, tv, idv, i as int, k as int),
                inv_view(invs@) == apply_all(seq![], done),
                distinct_users(inv_view(invs@)),
                fresh_invitations(invs@, req.game_id@, now),
            decreases n - k,
        {
            let inv = &invitations[k];
            assert(has_team(tv, iv[k as int].team_template_id@));
            if slots[k] == i {
                match &inv.target {
                    InviteTarget::Direct(u) => {
                        let ghost a: Assign = (u@, idv[i as int]@, None);
                        upsert_invitation(&mut invs, u, &team_ids[i], &None, &req.game_id, now);
                        proof {
                            let extended = done.push(a);
                            assert(extended.drop_last() =~= done);
                            done = extended;
                            assert(done =~= base + direct_assigns(iv, tv, idv, i as int, k + 1));
                        }
                    },
                    InviteTarget::Group(_) => {
                        assert(done =~= base + direct_assigns(iv, tv, idv, i as int, k + 1));
                    },
                }
            } else {
                assert(done =~= base + direct_assigns(iv, tv, idv, i as int, k + 1));
            }
            k = k + 1;
        }
        let ghost mid = done;
        let ghost gbase = groups_upto(iv, tv, i as int);
        // Group invitations of this team, expanded to their members.
        k = 0;
        while k < n
            invariant
                0 <= k <= n,
                0 <= i < tv.len(),
                n == iv.len(),
                iv == invitations@,
                tv == teams@,
                msv == memberships@,
                idv == team_ids@,
                idv.len() == tv.len(),
                slots.len() == n,
                forall|j: int|
                    #![trigger iv[j]]
                    #![trigger slots@[j]]
                    0 <= j < n ==> has_team(tv, iv[j].team_template_id@) && team_slot(
                        tv,
                        iv[j].team_template_id@,
                    ) == slots@[j] as int,
                done == mid + group_assigns(iv, tv, idv, msv, i as int, k as int),
                inv_view(invs@) == apply_all(seq![], done),
                distinct_users(inv_view(invs@)),
                fresh_invitations(invs@, req.game_id@, now),
                group_view(marks@) == dedup(gbase + groups_of_team(iv, tv, i as int, k as int)),
                fresh_group_invitations(marks@, req.game_id@, now),
            decreases n - k,
        {
            let inv = &invitations[k];
            assert(has_team(tv, iv[k as int].team_template_id@));
            if slots[k] == i {
                match &inv.target {
                    InviteTarget::Group(g) => {
                        let ghost gs = gbase + groups_of_team(iv, tv, i as int, k as int);
                        add_group_invitation(&mut marks, g, &req.game_id, now);
                        proof {
                            let groups_after = gs.push(g@);
                            assert(groups_after.drop_last() =~= gs);
                            assert(groups_after =~= gbase + groups_of_team(iv, tv, i as int, k + 1));
                        }
                        let ghost members: Seq<String> = members_of(msv, g@);
                        let empty: Vec<String> = Vec::new();
                        let list: &Vec<String> = match find_group(memberships, g) {
                            Some(gi) => {
                                proof {
                                    lemma_first_group_unique(msv, g@, gi as int);
                                }
                                &memberships[gi].user_ids
                            },
                            None => &empty,
                        };
                        assert(list@ =~= members);
                        let ghost start = done;
                        let ghost tid = idv[i as int]@;
                        let grp = Some(g.clone());
                        let mut m: usize = 0;
                        while m < list.len()
                            invariant
                                0 <= m <= list.len(),
                                list@ == members,
                                opt_view(grp) == Some(g@),
                                tid == idv[i as int]@,
                                0 <= i < idv.len(),
                                idv == team_ids@,
                                done == start + member_assigns(members, tid, g@).take(m as int),
                                inv_view(invs@) == apply_all(seq![], done),
                                distinct_users(inv_view(invs@)),
                                fresh_invitations(invs@, req.game_id@, now),
                            decreases list.len() - m,
                        {
                            let ghost a: Assign = (list@[m as int]@, tid, Some(g@));
                            upsert_invitation(&mut invs, &list[m], &team_ids[i], &grp, &req.game_id, now);
                            proof {
                                let extended = done.push(a);
                                assert(extended.drop_last() =~= done);
                                done = extended;
                                assert(done =~= start + member_assigns(members, tid, g@).take(m + 1));
                            }
                            m = m + 1;
                        }
                        assert(member_assigns(members, tid, g@).take(list.len() as int) =~= member_assigns(members, tid, g@));
                        assert(done =~= mid + group_assigns(iv, tv, idv, msv, i as int, k + 1));
                    },
                    InviteTarget::Direct(_) => {
                        assert(done =~= mid + group_assigns(iv, tv, idv, msv, i as int, k + 1));
                        assert(gbase + groups_of_team(iv, tv, i as int, k as int) =~= gbase + groups_of_team(iv, tv, i as int, k + 1));
                    },
                }
            } else {
                assert(done =~= mid + group_assigns(iv, tv, idv, msv, i as int, k + 1));
                assert(gbase + groups_of_team(iv, tv, i as int, k as int) =~= gbase + groups_of_team(iv, tv, i as int, k + 1));
            }
            k = k + 1;
        }
        proof {
            assert(done =~= assigns_upto(iv, tv, idv, msv, i + 1));
            assert(groups_upto(iv, tv, i + 1) =~= gbase + groups_of_team(iv, tv, i as int, n as int));
        }
        i = i + 1;
    }
    Ok(BuiltInstance { game, teams: game_teams, invitations: invs, group_invitations: marks })
}

} // verus!
