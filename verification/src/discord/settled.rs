//! Carrying out the plan for a user settles it: once each update was made to
//! the roles that the user holds, the teams ask nothing more of that user.

use crate::binding::lemma_decimal_unique;
use crate::discord::api::RoleView;
use crate::discord::{
    lemma_plan_holds_step, lemma_user_in_line_needs_nothing, role_named, user_plan_upto,
    user_step, DiscordError, DiscordTeamView, UserUpdate,
};
use crate::seqs::first_where;
use crate::text::{decimal, unsigned_number};
use vstd::prelude::*;

verus! {

/// The number of the role that a Discord team names, where the guild has the
/// role and its id reads as a number.
pub open spec fn team_role(team: DiscordTeamView, roles: Seq<RoleView>) -> Option<u64> {
    match first_where(roles, role_named(team.name)) {
        None => None,
        Some(k) => unsigned_number(roles[k].id, 10),
    }
}

/// Whether a user holds a role after the first `n` updates were carried out
/// in turn, on the roles `current`: an added role is held, a removed one is
/// not, the others are held as before.
pub open spec fn holds_after(
    current: Seq<Seq<char>>,
    updates: Seq<UserUpdate>,
    n: nat,
    role: Seq<char>,
) -> bool
    decreases n,
{
    if n == 0 {
        current.contains(role)
    } else {
        match updates[n - 1] {
            UserUpdate::AddRole(id) => decimal(id as nat) == role || holds_after(
                current,
                updates,
                (n - 1) as nat,
                role,
            ),
            UserUpdate::RemoveRole(id) => decimal(id as nat) != role && holds_after(
                current,
                updates,
                (n - 1) as nat,
                role,
            ),
        }
    }
}

/// Whether `roles` is what a user holds once every update was carried out.
pub open spec fn carried_out(
    current: Seq<Seq<char>>,
    updates: Seq<UserUpdate>,
    roles: Seq<Seq<char>>,
) -> bool {
    forall|role: Seq<char>| #[trigger]
        roles.contains(role) == holds_after(current, updates, updates.len(), role)
}

/// Whether teams that name the same role agree on whether the user is one of
/// their members.
pub open spec fn teams_agree(teams: Seq<DiscordTeamView>, user_id: u64, roles: Seq<RoleView>) -> bool {
    forall|i: int, j: int|
        #![trigger teams[i], teams[j]]
        0 <= i < teams.len() && 0 <= j < teams.len() && team_role(teams[i], roles) is Some
            && team_role(teams[i], roles) == team_role(teams[j], roles)
            ==> teams[i].members.contains(user_id) == teams[j].members.contains(user_id)
}

/// Whether one of the first `n` updates is `update`.
spec fn asked(updates: Seq<UserUpdate>, n: nat, update: UserUpdate) -> bool {
    exists|i: int| 0 <= i < n && updates[i] == update
}

proof fn lemma_asked(updates: Seq<UserUpdate>, n: nat, update: UserUpdate)
    requires
        0 < n <= updates.len(),
    ensures
        asked(updates, n, update) == (asked(updates, (n - 1) as nat, update) || updates[n - 1]
            == update),
{
    if asked(updates, n, update) {
        let i = choose|i: int| 0 <= i < n && updates[i] == update;
        if i < n - 1 {
            assert(asked(updates, (n - 1) as nat, update));
        }
    }
    if asked(updates, (n - 1) as nat, update) {
        let i = choose|i: int| 0 <= i < n - 1 && updates[i] == update;
        assert(0 <= i < n && updates[i] == update);
    }
    if updates[n - 1] == update {
        assert(0 <= n - 1 < n && updates[n - 1] == update);
    }
}

/// What holds of a role after updates that do not both add and remove it.
proof fn lemma_holds_after(current: Seq<Seq<char>>, updates: Seq<UserUpdate>, n: nat, id: u64)
    requires
        n <= updates.len(),
    ensures
        !asked(updates, n, UserUpdate::RemoveRole(id)) ==> holds_after(
            current,
            updates,
            n,
            decimal(id as nat),
        ) == (current.contains(decimal(id as nat)) || asked(updates, n, UserUpdate::AddRole(id))),
        !asked(updates, n, UserUpdate::AddRole(id)) ==> holds_after(
            current,
            updates,
            n,
            decimal(id as nat),
        ) == (current.contains(decimal(id as nat)) && !asked(
            updates,
            n,
            UserUpdate::RemoveRole(id),
        )),
    decreases n,
{
    if n > 0 {
        lemma_holds_after(current, updates, (n - 1) as nat, id);
        lemma_asked(updates, n, UserUpdate::AddRole(id));
        lemma_asked(updates, n, UserUpdate::RemoveRole(id));
        match updates[n - 1] {
            UserUpdate::AddRole(x) => {
                if decimal(x as nat) == decimal(id as nat) {
                    lemma_decimal_unique(x as nat, id as nat);
                }
            },
            UserUpdate::RemoveRole(x) => {
                if decimal(x as nat) == decimal(id as nat) {
                    lemma_decimal_unique(x as nat, id as nat);
                }
            },
        }
    }
}

/// Every update of the plan for a user is asked for by one of the teams.
proof fn lemma_update_from_team(
    teams: Seq<DiscordTeamView>,
    n: nat,
    user_id: u64,
    current: Seq<Seq<char>>,
    roles: Seq<RoleView>,
    i: int,
) -> (t: int)
    requires
        n <= teams.len(),
        user_plan_upto(teams, n, user_id, current, roles) is Ok,
        0 <= i < user_plan_upto(teams, n, user_id, current, roles)->Ok_0.len(),
    ensures
        0 <= t < n,
        user_step(teams[t], user_id, current, roles) is Ok,
        user_step(teams[t], user_id, current, roles)->Ok_0.contains(
            user_plan_upto(teams, n, user_id, current, roles)->Ok_0[i],
        ),
    decreases n,
{
    let before = user_plan_upto(teams, (n - 1) as nat, user_id, current, roles);
    let step = user_step(teams[n - 1], user_id, current, roles);
    assert(n > 0 && before is Ok && step is Ok);
    if i < before->Ok_0.len() {
        lemma_update_from_team(teams, (n - 1) as nat, user_id, current, roles, i)
    } else {
        assert(step->Ok_0[i - before->Ok_0.len()] == (before->Ok_0 + step->Ok_0)[i]);
        n - 1
    }
}

/// Once the plan for a user was carried out, the user holds the role of a
/// team exactly if the user is one of its members.
proof fn lemma_team_settled(
    teams: Seq<DiscordTeamView>,
    t: int,
    user_id: u64,
    current: Seq<Seq<char>>,
    roles: Seq<RoleView>,
    id: u64,
)
    requires
        0 <= t < teams.len(),
        teams_agree(teams, user_id, roles),
        user_plan_upto(teams, teams.len(), user_id, current, roles) is Ok,
        team_role(teams[t], roles) == Some(id),
    ensures
        holds_after(
            current,
            user_plan_upto(teams, teams.len(), user_id, current, roles)->Ok_0,
            user_plan_upto(teams, teams.len(), user_id, current, roles)->Ok_0.len(),
            decimal(id as nat),
        ) == teams[t].members.contains(user_id),
{
    let n = teams.len();
    let plan = user_plan_upto(teams, n, user_id, current, roles)->Ok_0;
    let member = teams[t].members.contains(user_id);
    let holds = current.contains(decimal(id as nat));
    let add = UserUpdate::AddRole(id);
    let remove = UserUpdate::RemoveRole(id);
    lemma_holds_after(current, plan, plan.len(), id);
    assert forall|i: int| 0 <= i < plan.len() && (plan[i] == add || plan[i] == remove) implies (
    plan[i] == add <==> member && !holds) && (plan[i] == remove <==> holds && !member) by {
        let j = lemma_update_from_team(teams, n, user_id, current, roles, i);
        let step = user_step(teams[j], user_id, current, roles)->Ok_0;
        let k = choose|k: int| 0 <= k < step.len() && step[k] == plan[i];
        assert(team_role(teams[j], roles) == Some(id));
        assert(teams[t].members.contains(user_id) == teams[j].members.contains(user_id));
    }
    if member != holds {
        lemma_step_of(teams, t, user_id, current, roles);
        let step = user_step(teams[t], user_id, current, roles)->Ok_0;
        let update = if member {
            add
        } else {
            remove
        };
        assert(step[0] == update);
        lemma_plan_holds_step(teams, n, t, user_id, current, roles, update);
        let i = choose|i: int| 0 <= i < plan.len() && plan[i] == update;
        assert(asked(plan, plan.len(), update));
    }
}

/// A team whose role the guild has under a number asks for the role to be
/// added, to be removed, or for nothing.
proof fn lemma_step_of(
    teams: Seq<DiscordTeamView>,
    t: int,
    user_id: u64,
    current: Seq<Seq<char>>,
    roles: Seq<RoleView>,
)
    requires
        0 <= t < teams.len(),
        team_role(teams[t], roles) is Some,
    ensures
        user_step(teams[t], user_id, current, roles) is Ok,
{
}

/// Carrying out the plan settles it. Where the teams that name the same role
/// agree on whether the user is a member, and `after` is what the user holds
/// once every update of the plan was carried out, the plan for `after` is
/// empty: no role is added or removed a second time.
pub proof fn lemma_user_plan_settles(
    teams: Seq<DiscordTeamView>,
    user_id: u64,
    current: Seq<Seq<char>>,
    roles: Seq<RoleView>,
    after: Seq<Seq<char>>,
)
    requires
        teams_agree(teams, user_id, roles),
        user_plan_upto(teams, teams.len(), user_id, current, roles) is Ok,
        carried_out(
            current,
            user_plan_upto(teams, teams.len(), user_id, current, roles)->Ok_0,
            after,
        ),
    ensures
        user_plan_upto(teams, teams.len(), user_id, after, roles) == Ok::<
            Seq<UserUpdate>,
            DiscordError,
        >(Seq::empty()),
{
    let plan = user_plan_upto(teams, teams.len(), user_id, current, roles)->Ok_0;
    assert forall|t: int| 0 <= t < teams.len() implies user_step(
        #[trigger] teams[t],
        user_id,
        after,
        roles,
    ) == Ok::<Seq<UserUpdate>, DiscordError>(Seq::empty()) by {
        match first_where(roles, role_named(teams[t].name)) {
            None => {},
            Some(k) => {
                lemma_step_succeeds(teams, teams.len(), t, user_id, current, roles);
                let id = unsigned_number(roles[k].id, 10)->Some_0;
                lemma_team_settled(teams, t, user_id, current, roles, id);
                assert(after.contains(decimal(id as nat)) == holds_after(
                    current,
                    plan,
                    plan.len(),
                    decimal(id as nat),
                ));
            },
        }
    }
    lemma_user_in_line_needs_nothing(teams, teams.len(), user_id, after, roles);
}

/// Where the plan for a user succeeds, so does the step of each team.
proof fn lemma_step_succeeds(
    teams: Seq<DiscordTeamView>,
    n: nat,
    t: int,
    user_id: u64,
    current: Seq<Seq<char>>,
    roles: Seq<RoleView>,
)
    requires
        0 <= t < n <= teams.len(),
        user_plan_upto(teams, n, user_id, current, roles) is Ok,
    ensures
        user_step(teams[t], user_id, current, roles) is Ok,
    decreases n,
{
    if t < n - 1 {
        lemma_step_succeeds(teams, (n - 1) as nat, t, user_id, current, roles);
    }
}

} // verus!
