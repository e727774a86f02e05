use crate::builder::{copy_opt, GameInvitation};
use crate::model::InvitationStatus;
use vstd::prelude::*;

verus! {

/// Whether invitation `x` is the one of user `user` to game `game`.
pub open spec fn addressed(x: GameInvitation, game: Seq<char>, user: Seq<char>) -> bool {
    x.game_id@ == game && x.user_id@ == user
}

/// Records a user's response to a game invitation: every invitation of that
/// user to that game takes the decision as its status and `now` as its
/// response time, whatever its status was; when there is none, nothing
/// changes. A later response overwrites an earlier one.
pub fn respond(
    invitations: &mut Vec<GameInvitation>,
    game_id: &String,
    user_id: &String,
    decision: InvitationStatus,
    now: i64,
)
    ensures
        final(invitations)@.len() == old(invitations)@.len(),
        forall|i: int|
            0 <= i < old(invitations)@.len() ==> {
                let x = #[trigger] old(invitations)@[i];
                let y = final(invitations)@[i];
                if addressed(x, game_id@, user_id@) {
                    &&& y.game_id == x.game_id
                    &&& y.user_id == x.user_id
                    &&& y.team_id == x.team_id
                    &&& y.group_id == x.group_id
                    &&& y.invited_at == x.invited_at
                    &&& y.status == decision
                    &&& y.responded_at == Some(now)
                } else {
                    y == x
                }
            },
{
    let mut i: usize = 0;
    while i < invitations.len()
        invariant
            0 <= i <= invitations@.len(),
            invitations@.len() == old(invitations)@.len(),
            forall|j: int|
                i <= j < invitations@.len() ==> #[trigger] invitations@[j] == old(invitations)@[j],
            forall|j: int|
                0 <= j < i ==> {
                    let x = #[trigger] old(invitations)@[j];
                    let y = invitations@[j];
                    if addressed(x, game_id@, user_id@) {
                        &&& y.game_id == x.game_id
                        &&& y.user_id == x.user_id
                        &&& y.team_id == x.team_id
                        &&& y.group_id == x.group_id
                        &&& y.invited_at == x.invited_at
                        &&& y.status == decision
                        &&& y.responded_at == Some(now)
                    } else {
                        y == x
                    }
                },
        decreases invitations@.len() - i,
    {
        if invitations[i].game_id == *game_id && invitations[i].user_id == *user_id {
            let x = &invitations[i];
            let y = GameInvitation {
                game_id: x.game_id.clone(),
                user_id: x.user_id.clone(),
                team_id: x.team_id.clone(),
                group_id: copy_opt(&x.group_id),
                status: decision,
                invited_at: x.invited_at,
                responded_at: Some(now),
            };
            invitations.set(i, y);
        }
        i = i + 1;
    }
}

} // verus!
