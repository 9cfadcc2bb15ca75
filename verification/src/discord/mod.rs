//! Synchronising the roles of a Discord guild with the teams' description.

pub mod api;
pub mod settled;

use crate::discord::api::{
    member_walk_start, Guild, GuildMember, GuildMemberView, MemberWalk, Role, RoleView,
};
use crate::grouped::{with_item, Grouped};
use crate::model::{
    append_actions, creates_first, creations_lead, Action, ActionView, Diff,
    Field, FieldName, FieldView, Identity, Kind, Target, TargetView, TeamRole, Value, ValueView,
};
use crate::seqs::{
    clone_ids, contains_id, contains_text, first_where, lemma_first_where_is,
    lemma_first_where_none,
};
use crate::text::{decimal, decimal_string, parse_unsigned, unsigned_number};
use vstd::prelude::*;

verus! {

/// The Discord side of a team: the role's name, who holds it, and its color as
/// a mark followed by hexadecimal digits.
#[derive(Debug, PartialEq, Eq)]
pub struct DiscordTeam {
    pub name: String,
    pub members: Vec<u64>,
    pub color: Option<String>,
}

pub struct DiscordTeamView {
    pub name: Seq<char>,
    pub members: Seq<u64>,
    pub color: Option<Seq<char>>,
}

impl DeepView for DiscordTeam {
    type V = DiscordTeamView;

    open spec fn deep_view(&self) -> DiscordTeamView {
        DiscordTeamView { name: self.name@, members: self.members@, color: self.color.deep_view() }
    }
}

/// A team of the description, as far as this platform reads it.
#[derive(Debug, PartialEq, Eq)]
pub struct Team {
    pub name: String,
    pub discord: Vec<DiscordTeam>,
}

pub struct TeamView {
    pub name: Seq<char>,
    pub discord: Seq<DiscordTeamView>,
}

impl DeepView for Team {
    type V = TeamView;

    open spec fn deep_view(&self) -> TeamView {
        TeamView { name: self.name@, discord: self.discord.deep_view() }
    }
}

/// A change to the roles that one user holds.
#[derive(Clone, Copy, Debug, PartialEq, Eq, Structural)]
pub enum UserUpdate {
    AddRole(u64),
    RemoveRole(u64),
}

/// A change to one role.
#[derive(Clone, Copy, Debug, PartialEq, Eq, Structural)]
pub enum RoleUpdate {
    ChangeColor(u64),
    ChangePosition(u64),
}

/// A role that the guild lacks.
#[derive(Debug, PartialEq, Eq)]
pub struct NewRole {
    pub name: String,
    pub color: u64,
    pub members: Vec<u64>,
}

pub struct NewRoleView {
    pub name: Seq<char>,
    pub color: u64,
    pub members: Seq<u64>,
}

impl DeepView for NewRole {
    type V = NewRoleView;

    open spec fn deep_view(&self) -> NewRoleView {
        NewRoleView { name: self.name@, color: self.color, members: self.members@ }
    }
}

/// Why the description and the guild could not be compared.
#[derive(Clone, Copy, Debug, PartialEq, Eq, Structural)]
pub enum DiscordError {
    /// A team's color is not a mark followed by a hexadecimal number.
    InvalidColor,
    /// The id of a guild role is not a decimal number.
    InvalidRoleId,
    /// A new role was to be placed below a role at position zero.
    NoPositionBelow,
    /// The id of a guild member is not a decimal number.
    InvalidUserId,
}

/// What is to change about the guild's roles.
#[derive(Debug, PartialEq, Eq)]
pub struct RolePlan {
    pub min_managed_role_position: Option<u64>,
    pub role_updates: Grouped<RoleUpdate>,
    pub new_roles: Vec<NewRole>,
}

pub struct RolePlanView {
    pub min_managed_role_position: Option<u64>,
    pub role_updates: Seq<(u64, Seq<RoleUpdate>)>,
    pub new_roles: Seq<NewRoleView>,
}

impl DeepView for RolePlan {
    type V = RolePlanView;

    open spec fn deep_view(&self) -> RolePlanView {
        RolePlanView {
            min_managed_role_position: self.min_managed_role_position,
            role_updates: self.role_updates@,
            new_roles: self.new_roles.deep_view(),
        }
    }
}

/// Holds of the roles called `name`.
pub open spec fn role_named(name: Seq<char>) -> spec_fn(RoleView) -> bool {
    |r: RoleView| r.name == name
}

/// Holds of the roles whose id reads as the number `id`.
pub open spec fn role_numbered(id: u64) -> spec_fn(RoleView) -> bool {
    |r: RoleView| unsigned_number(r.id, 10) == Some(id)
}

/// The Discord sides of the first `n` teams, in order.
pub open spec fn discord_upto(teams: Seq<TeamView>, n: nat) -> Seq<DiscordTeamView>
    decreases n,
{
    if n == 0 {
        Seq::empty()
    } else {
        discord_upto(teams, (n - 1) as nat) + teams[n - 1].discord
    }
}

/// The Discord sides of all teams, in order.
pub open spec fn discord_teams(teams: Seq<TeamView>) -> Seq<DiscordTeamView> {
    discord_upto(teams, teams.len())
}

/// The number that a color denotes: its hexadecimal digits after the leading
/// mark.
pub open spec fn color_code(color: Seq<char>) -> Option<u64> {
    if color.len() == 0 {
        None
    } else {
        unsigned_number(color.subrange(1, color.len() as int), 16)
    }
}

/// The lower of a position and the lowest seen so far.
pub open spec fn lower_position(seen: Option<u64>, position: u64) -> Option<u64> {
    match seen {
        Some(p) => if p > position {
            Some(position)
        } else {
            Some(p)
        },
        None => Some(position),
    }
}

/// The plan after one more Discord team was looked at. A team whose role
/// exists lowers the lowest managed position and asks for its color where that
/// differs; one whose role is missing asks for a new role.
pub open spec fn role_step(plan: RolePlanView, team: DiscordTeamView, roles: Seq<RoleView>) -> Result<
    RolePlanView,
    DiscordError,
> {
    match first_where(roles, role_named(team.name)) {
        Some(k) => {
            let role = roles[k];
            let min = lower_position(plan.min_managed_role_position, role.position);
            match team.color {
                None => Ok(RolePlanView { min_managed_role_position: min, ..plan }),
                Some(color) => match color_code(color) {
                    None => Err(DiscordError::InvalidColor),
                    Some(code) => if code != role.color {
                        match unsigned_number(role.id, 10) {
                            None => Err(DiscordError::InvalidRoleId),
                            Some(id) => Ok(
                                RolePlanView {
                                    min_managed_role_position: min,
                                    role_updates: with_item(
                                        plan.role_updates,
                                        id,
                                        RoleUpdate::ChangeColor(code),
                                    ),
                                    new_roles: plan.new_roles,
                                },
                            ),
                        }
                    } else {
                        Ok(RolePlanView { min_managed_role_position: min, ..plan })
                    },
                },
            }
        },
        None => {
            let code = match team.color {
                None => Some(0u64),
                Some(color) => color_code(color),
            };
            match code {
                None => Err(DiscordError::InvalidColor),
                Some(code) => Ok(
                    RolePlanView {
                        new_roles: plan.new_roles.push(
                            NewRoleView { name: team.name, color: code, members: team.members },
                        ),
                        ..plan
                    },
                ),
            }
        },
    }
}

/// The plan after the first `n` Discord teams, or the first error met.
pub open spec fn role_plan_upto(teams: Seq<DiscordTeamView>, n: nat, roles: Seq<RoleView>) -> Result<
    RolePlanView,
    DiscordError,
>
    decreases n,
{
    if n == 0 {
        Ok(
            RolePlanView {
                min_managed_role_position: None,
                role_updates: Seq::empty(),
                new_roles: Seq::empty(),
            },
        )
    } else {
        match role_plan_upto(teams, (n - 1) as nat, roles) {
            Err(e) => Err(e),
            Ok(plan) => role_step(plan, teams[n - 1], roles),
        }
    }
}

/// What one Discord team asks of one user: to get the team's role where the
/// user is a member without it, to lose it where the user holds it without
/// being a member. A team whose role the guild lacks asks nothing.
pub open spec fn user_step(
    team: DiscordTeamView,
    user_id: u64,
    current: Seq<Seq<char>>,
    roles: Seq<RoleView>,
) -> Result<Seq<UserUpdate>, DiscordError> {
    match first_where(roles, role_named(team.name)) {
        None => Ok(Seq::empty()),
        Some(k) => match unsigned_number(roles[k].id, 10) {
            None => Err(DiscordError::InvalidRoleId),
            Some(id) => {
                let holds = current.contains(decimal(id as nat));
                let member = team.members.contains(user_id);
                if member && !holds {
                    Ok(seq![UserUpdate::AddRole(id)])
                } else if holds && !member {
                    Ok(seq![UserUpdate::RemoveRole(id)])
                } else {
                    Ok(Seq::empty())
                }
            },
        },
    }
}

/// What the first `n` Discord teams ask of one user, or the first error met.
pub open spec fn user_plan_upto(
    teams: Seq<DiscordTeamView>,
    n: nat,
    user_id: u64,
    current: Seq<Seq<char>>,
    roles: Seq<RoleView>,
) -> Result<Seq<UserUpdate>, DiscordError>
    decreases n,
{
    if n == 0 {
        Ok(Seq::empty())
    } else {
        match user_plan_upto(teams, (n - 1) as nat, user_id, current, roles) {
            Err(e) => Err(e),
            Ok(updates) => match user_step(teams[n - 1], user_id, current, roles) {
                Err(e) => Err(e),
                Ok(more) => Ok(updates + more),
            },
        }
    }
}

/// The position of the first role called `name`.
pub fn find_role(roles: &Vec<Role>, name: &String) -> (r: Option<usize>)
    ensures
        match r {
            Some(k) => k < roles.len() && first_where(roles.deep_view(), role_named(name@))
                == Some(k as int),
            None => first_where(roles.deep_view(), role_named(name@)) is None,
        },
{
    let ghost wanted = role_named(name@);
    let ghost view = roles.deep_view();
    let mut i: usize = 0;
    while i < roles.len()
        invariant
            i <= roles.len(),
            view == roles.deep_view(),
            wanted == role_named(name@),
            forall|j: int| 0 <= j < i ==> !wanted(#[trigger] view[j]),
        decreases roles.len() - i,
    {
        if roles[i].name == *name {
            proof {
                assert(wanted(view[i as int]));
                lemma_first_where_is(view, wanted, i as int);
            }
            return Some(i);
        }
        assert(!wanted(view[i as int]));
        i += 1;
    }
    proof {
        lemma_first_where_none(view, wanted);
    }
    None
}

/// The position of the first role whose id reads as the number `id`.
pub fn find_role_by_id(roles: &Vec<Role>, id: u64) -> (r: Option<usize>)
    ensures
        match r {
            Some(k) => k < roles.len() && first_where(roles.deep_view(), role_numbered(id))
                == Some(k as int),
            None => first_where(roles.deep_view(), role_numbered(id)) is None,
        },
{
    let ghost wanted = role_numbered(id);
    let ghost view = roles.deep_view();
    let mut i: usize = 0;
    while i < roles.len()
        invariant
            i <= roles.len(),
            view == roles.deep_view(),
            wanted == role_numbered(id),
            forall|j: int| 0 <= j < i ==> !wanted(#[trigger] view[j]),
        decreases roles.len() - i,
    {
        let read = parse_role_id(&roles[i]);
        if read == Some(id) {
            proof {
                assert(wanted(view[i as int]));
                lemma_first_where_is(view, wanted, i as int);
            }
            return Some(i);
        }
        assert(!wanted(view[i as int]));
        i += 1;
    }
    proof {
        lemma_first_where_none(view, wanted);
    }
    None
}

/// The id of a role as a number.
pub fn parse_role_id(role: &Role) -> (r: Option<u64>)
    ensures
        r == unsigned_number(role.id@, 10),
{
    assert(role.id@.subrange(0, role.id@.len() as int) =~= role.id@);
    parse_unsigned(role.id.as_str(), 0, 10)
}

/// The number that a team's color denotes.
pub fn parse_color(color: &String) -> (r: Option<u64>)
    ensures
        r == color_code(color@),
{
    if color.as_str().unicode_len() == 0 {
        None
    } else {
        parse_unsigned(color.as_str(), 1, 16)
    }
}

/// The description of the teams, to be compared with a guild.
#[derive(Debug, PartialEq, Eq)]
pub struct SyncDiscord {
    pub dry_run: bool,
    pub teams: Vec<Team>,
}

impl SyncDiscord {
    /// Takes the teams as they were read from the description.
    pub fn new(teams: Vec<Team>, dry_run: bool) -> (sync: Self)
        ensures
            sync.teams == teams,
            sync.dry_run == dry_run,
    {
        SyncDiscord { dry_run, teams }
    }

    /// The Discord sides of all teams, in order.
    pub fn discord_teams(&self) -> (r: Vec<&DiscordTeam>)
        ensures
            r.deep_view() == discord_teams(self.teams.deep_view()),
    {
        let ghost teams = self.teams.deep_view();
        let mut out: Vec<&DiscordTeam> = Vec::new();
        let mut i: usize = 0;
        while i < self.teams.len()
            invariant
                i <= self.teams.len(),
                teams == self.teams.deep_view(),
                out.deep_view() == discord_upto(teams, i as nat),
            decreases self.teams.len() - i,
        {
            let team = &self.teams[i];
            let ghost sides = teams[i as int].discord;
            assert(sides == team.discord.deep_view());
            let mut j: usize = 0;
            while j < team.discord.len()
                invariant
                    j <= team.discord.len(),
                    sides == team.discord.deep_view(),
                    out.deep_view() == discord_upto(teams, i as nat) + sides.take(j as int),
                decreases team.discord.len() - j,
            {
                let ghost before = out.deep_view();
                out.push(&team.discord[j]);
                assert(sides[j as int] == team.discord[j as int].deep_view());
                assert(out.deep_view() =~= before.push(sides[j as int]));
                assert(out.deep_view() =~= discord_upto(teams, i as nat) + sides.take(j + 1));
                j += 1;
            }
            assert(sides.take(j as int) =~= sides);
            i += 1;
        }
        out
    }

    /// The walk that finds the users to compare: every member of the guild
    /// is looked at, so that a member who holds a managed role without being
    /// listed for it reaches `run` and loses it.
    pub fn get_users(&self) -> (walk: MemberWalk)
        ensures
            walk.deep_view() == member_walk_start(),
    {
        MemberWalk::start()
    }

    /// What the teams ask of one user of the guild, in the order of the teams.
    pub fn get_user_updates(&self, user_id: u64, user: &GuildMember, guild_roles: &Vec<Role>) -> (r:
        Result<Vec<UserUpdate>, DiscordError>)
        ensures
            match r {
                Ok(updates) => user_plan_upto(
                    discord_teams(self.teams.deep_view()),
                    discord_teams(self.teams.deep_view()).len(),
                    user_id,
                    user.roles.deep_view(),
                    guild_roles.deep_view(),
                ) == Ok::<Seq<UserUpdate>, DiscordError>(updates@),
                Err(e) => user_plan_upto(
                    discord_teams(self.teams.deep_view()),
                    discord_teams(self.teams.deep_view()).len(),
                    user_id,
                    user.roles.deep_view(),
                    guild_roles.deep_view(),
                ) == Err::<Seq<UserUpdate>, DiscordError>(e),
            },
    {
        let sides = self.discord_teams();
        let ghost teams = sides.deep_view();
        let ghost current = user.roles.deep_view();
        let ghost roles = guild_roles.deep_view();
        let mut updates: Vec<UserUpdate> = Vec::new();
        let mut i: usize = 0;
        while i < sides.len()
            invariant
                i <= sides.len(),
                teams == sides.deep_view(),
                teams == discord_teams(self.teams.deep_view()),
                current == user.roles.deep_view(),
                roles == guild_roles.deep_view(),
                user_plan_upto(teams, i as nat, user_id, current, roles) == Ok::<
                    Seq<UserUpdate>,
                    DiscordError,
                >(updates@),
            decreases sides.len() - i,
        {
            let side = sides[i];
            assert(teams[i as int] == side.deep_view());
            match find_role(guild_roles, &side.name) {
                None => {
                    assert(updates@ + Seq::<UserUpdate>::empty() =~= updates@);
                },
                Some(k) => {
                    assert(roles[k as int] == guild_roles[k as int].deep_view());
                    match parse_role_id(&guild_roles[k]) {
                        None => {
                            proof {
                                lemma_user_plan_fails(teams, i as nat, user_id, current, roles);
                            }
                            return Err(DiscordError::InvalidRoleId);
                        },
                        Some(id) => {
                            let id_text = decimal_string(id);
                            let holds = contains_text(&user.roles, &id_text);
                            let member = contains_id(&side.members, user_id);
                            let ghost before = updates@;
                            if member && !holds {
                                updates.push(UserUpdate::AddRole(id));
                                assert(updates@ =~= before + seq![UserUpdate::AddRole(id)]);
                            } else if holds && !member {
                                updates.push(UserUpdate::RemoveRole(id));
                                assert(updates@ =~= before + seq![UserUpdate::RemoveRole(id)]);
                            } else {
                                assert(before + Seq::<UserUpdate>::empty() =~= before);
                            }
                        },
                    }
                },
            }
            i += 1;
        }
        Ok(updates)
    }

    /// What is to change about the guild's roles, the teams taken in order.
    pub fn get_role_updates(&self, guild_roles: &Vec<Role>) -> (r: Result<RolePlan, DiscordError>)
        ensures
            match r {
                Ok(plan) => role_plan_upto(
                    discord_teams(self.teams.deep_view()),
                    discord_teams(self.teams.deep_view()).len(),
                    guild_roles.deep_view(),
                ) == Ok::<RolePlanView, DiscordError>(plan.deep_view()),
                Err(e) => role_plan_upto(
                    discord_teams(self.teams.deep_view()),
                    discord_teams(self.teams.deep_view()).len(),
                    guild_roles.deep_view(),
                ) == Err::<RolePlanView, DiscordError>(e),
            },
    {
        let sides = self.discord_teams();
        let ghost teams = sides.deep_view();
        let ghost roles = guild_roles.deep_view();
        let mut min: Option<u64> = None;
        let mut role_updates: Grouped<RoleUpdate> = Grouped::new();
        let mut new_roles: Vec<NewRole> = Vec::new();
        assert(new_roles.deep_view() =~= Seq::<NewRoleView>::empty());
        let mut i: usize = 0;
        while i < sides.len()
            invariant
                i <= sides.len(),
                teams == sides.deep_view(),
                teams == discord_teams(self.teams.deep_view()),
                roles == guild_roles.deep_view(),
                role_plan_upto(teams, i as nat, roles) == Ok::<RolePlanView, DiscordError>(
                    RolePlanView {
                        min_managed_role_position: min,
                        role_updates: role_updates@,
                        new_roles: new_roles.deep_view(),
                    },
                ),
            decreases sides.len() - i,
        {
            let side = sides[i];
            assert(teams[i as int] == side.deep_view());
            let code = match &side.color {
                None => None,
                Some(color) => match parse_color(color) {
                    None => {
                        proof {
                            lemma_role_plan_fails(teams, i as nat, roles);
                        }
                        return Err(DiscordError::InvalidColor);
                    },
                    Some(code) => Some(code),
                },
            };
            match find_role(guild_roles, &side.name) {
                Some(k) => {
                    let role = &guild_roles[k];
                    assert(roles[k as int] == role.deep_view());
                    min = match min {
                        Some(p) => if p > role.position {
                            Some(role.position)
                        } else {
                            Some(p)
                        },
                        None => Some(role.position),
                    };
                    match code {
                        None => {},
                        Some(code) => {
                            if code != role.color {
                                match parse_role_id(role) {
                                    None => {
                                        proof {
                                            lemma_role_plan_fails(teams, i as nat, roles);
                                        }
                                        return Err(DiscordError::InvalidRoleId);
                                    },
                                    Some(id) => {
                                        role_updates.add(id, RoleUpdate::ChangeColor(code));
                                    },
                                }
                            }
                        },
                    }
                },
                None => {
                    let color = match code {
                        None => 0,
                        Some(code) => code,
                    };
                    let ghost before = new_roles.deep_view();
                    let fresh = NewRole {
                        name: side.name.clone(),
                        color,
                        members: clone_ids(&side.members),
                    };
                    new_roles.push(fresh);
                    assert(new_roles.deep_view() =~= before.push(
                        NewRoleView { name: side.name@, color, members: side.members@ },
                    ));
                },
            }
            i += 1;
        }
        Ok(RolePlan { min_managed_role_position: min, role_updates, new_roles })
    }
}

/// An error on the way is the error of the whole.
proof fn lemma_user_plan_fails(
    teams: Seq<DiscordTeamView>,
    n: nat,
    user_id: u64,
    current: Seq<Seq<char>>,
    roles: Seq<RoleView>,
)
    requires
        n < teams.len(),
        user_plan_upto(teams, n, user_id, current, roles) is Ok,
        user_step(teams[n as int], user_id, current, roles) is Err,
    ensures
        user_plan_upto(teams, teams.len(), user_id, current, roles) == Err::<
            Seq<UserUpdate>,
            DiscordError,
        >(user_step(teams[n as int], user_id, current, roles)->Err_0),
{
    lemma_user_plan_stays_failed(teams, n + 1, teams.len(), user_id, current, roles);
}

proof fn lemma_user_plan_stays_failed(
    teams: Seq<DiscordTeamView>,
    n: nat,
    m: nat,
    user_id: u64,
    current: Seq<Seq<char>>,
    roles: Seq<RoleView>,
)
    requires
        n <= m,
        user_plan_upto(teams, n, user_id, current, roles) is Err,
    ensures
        user_plan_upto(teams, m, user_id, current, roles) == user_plan_upto(
            teams,
            n,
            user_id,
            current,
            roles,
        ),
    decreases m,
{
    if n < m {
        lemma_user_plan_stays_failed(teams, n, (m - 1) as nat, user_id, current, roles);
    }
}

/// An error on the way is the error of the whole.
proof fn lemma_role_plan_fails(teams: Seq<DiscordTeamView>, n: nat, roles: Seq<RoleView>)
    requires
        n < teams.len(),
        role_plan_upto(teams, n, roles) is Ok,
        role_step(role_plan_upto(teams, n, roles)->Ok_0, teams[n as int], roles) is Err,
    ensures
        role_plan_upto(teams, teams.len(), roles) == Err::<RolePlanView, DiscordError>(
            role_step(role_plan_upto(teams, n, roles)->Ok_0, teams[n as int], roles)->Err_0,
        ),
{
    lemma_role_plan_stays_failed(teams, n + 1, teams.len(), roles);
}

proof fn lemma_role_plan_stays_failed(teams: Seq<DiscordTeamView>, n: nat, m: nat, roles: Seq<RoleView>)
    requires
        n <= m,
        role_plan_upto(teams, n, roles) is Err,
    ensures
        role_plan_upto(teams, m, roles) == role_plan_upto(teams, n, roles),
    decreases m,
{
    if n < m {
        lemma_role_plan_stays_failed(teams, n, (m - 1) as nat, roles);
    }
}

/// Holds of the new roles called `name`.
pub open spec fn new_role_named(name: Seq<char>) -> spec_fn(NewRoleView) -> bool {
    |r: NewRoleView| r.name == name
}

/// Holds of the users with the id `id`.
pub open spec fn user_numbered(id: u64) -> spec_fn((u64, GuildMemberView)) -> bool {
    |u: (u64, GuildMemberView)| u.0 == id
}

/// Whether `id` is among the users that were found in the guild.
pub open spec fn known_user(users: Seq<(u64, GuildMemberView)>, id: u64) -> bool {
    first_where(users, user_numbered(id)) is Some
}

/// A role as the target of an action.
pub open spec fn role_target(name: Seq<char>, identity: Identity) -> TargetView {
    TargetView { kind: Kind::Role, name, identity }
}

/// The role is given to those of the first `n` of `members` that are known.
pub open spec fn member_adds_upto(
    target: TargetView,
    members: Seq<u64>,
    n: nat,
    users: Seq<(u64, GuildMemberView)>,
) -> Seq<ActionView>
    decreases n,
{
    if n == 0 {
        Seq::empty()
    } else if known_user(users, members[n - 1]) {
        member_adds_upto(target, members, (n - 1) as nat, users).push(
            ActionView::AddRelation { target, related: members[n - 1], role: TeamRole::Member },
        )
    } else {
        member_adds_upto(target, members, (n - 1) as nat, users)
    }
}

/// The actions for the new role at `k`: none where a role of that name was
/// asked for before; else the role is created under the local key `k` with its
/// color, placed below the lowest managed position where there is one, and
/// given to its known members.
pub open spec fn new_role_actions(
    new_roles: Seq<NewRoleView>,
    k: int,
    min: Option<u64>,
    users: Seq<(u64, GuildMemberView)>,
) -> Seq<ActionView> {
    let role = new_roles[k];
    if first_where(new_roles.take(k), new_role_named(role.name)) is Some {
        Seq::empty()
    } else {
        let target = role_target(role.name, Identity::Pending(k as u64));
        let create = seq![
            ActionView::CreateEntity {
                target,
                fields: seq![
                    FieldView { name: FieldName::Color, value: ValueView::Number(role.color) },
                ],
            },
        ];
        let place = match min {
            Some(p) => seq![
                ActionView::EditField {
                    target,
                    field: FieldName::Position,
                    old: None,
                    new: ValueView::Number((p - 1) as u64),
                },
            ],
            None => Seq::empty(),
        };
        create + place + member_adds_upto(target, role.members, role.members.len(), users)
    }
}

/// The actions for the first `n` new roles.
pub open spec fn creation_upto(
    new_roles: Seq<NewRoleView>,
    n: nat,
    min: Option<u64>,
    users: Seq<(u64, GuildMemberView)>,
) -> Seq<ActionView>
    decreases n,
{
    if n == 0 {
        Seq::empty()
    } else {
        creation_upto(new_roles, (n - 1) as nat, min, users) + new_role_actions(
            new_roles,
            n - 1,
            min,
            users,
        )
    }
}

/// The role that an update of a user's roles names.
pub open spec fn updated_role(update: UserUpdate) -> u64 {
    match update {
        UserUpdate::AddRole(id) => id,
        UserUpdate::RemoveRole(id) => id,
    }
}

/// The action that carries out one update of a user's roles: on the first role
/// of the guild whose id reads as the update's, none where there is no such
/// role.
pub open spec fn user_update_actions(update: UserUpdate, user_id: u64, roles: Seq<RoleView>) -> Seq<
    ActionView,
> {
    match first_where(roles, role_numbered(updated_role(update))) {
        None => Seq::empty(),
        Some(k) => {
            let target = role_target(roles[k].name, Identity::Committed(updated_role(update)));
            match update {
                UserUpdate::AddRole(_) => seq![
                    ActionView::AddRelation { target, related: user_id, role: TeamRole::Member },
                ],
                UserUpdate::RemoveRole(_) => seq![
                    ActionView::RemoveRelation { target, related: user_id },
                ],
            }
        },
    }
}

/// The actions for the first `n` updates of one user.
pub open spec fn user_actions_upto(updates: Seq<UserUpdate>, n: nat, user_id: u64, roles: Seq<RoleView>) -> Seq<
    ActionView,
>
    decreases n,
{
    if n == 0 {
        Seq::empty()
    } else {
        user_actions_upto(updates, (n - 1) as nat, user_id, roles) + user_update_actions(
            updates[n - 1],
            user_id,
            roles,
        )
    }
}

/// The actions for the first `n` users, or the first error met.
pub open spec fn users_actions_upto(
    teams: Seq<DiscordTeamView>,
    users: Seq<(u64, GuildMemberView)>,
    n: nat,
    roles: Seq<RoleView>,
) -> Result<Seq<ActionView>, DiscordError>
    decreases n,
{
    if n == 0 {
        Ok(Seq::empty())
    } else {
        match users_actions_upto(teams, users, (n - 1) as nat, roles) {
            Err(e) => Err(e),
            Ok(actions) => match user_plan_upto(
                teams,
                teams.len(),
                users[n - 1].0,
                users[n - 1].1.roles,
                roles,
            ) {
                Err(e) => Err(e),
                Ok(updates) => Ok(
                    actions + user_actions_upto(updates, updates.len(), users[n - 1].0, roles),
                ),
            },
        }
    }
}

/// The action that carries out one update of the role with the id `id`: on the
/// first role of the guild whose id reads so, none where there is no such role.
pub open spec fn role_update_actions(update: RoleUpdate, id: u64, roles: Seq<RoleView>) -> Seq<
    ActionView,
> {
    match first_where(roles, role_numbered(id)) {
        None => Seq::empty(),
        Some(k) => {
            let target = role_target(roles[k].name, Identity::Committed(id));
            match update {
                RoleUpdate::ChangeColor(color) => seq![
                    ActionView::EditField {
                        target,
                        field: FieldName::Color,
                        old: Some(ValueView::Number(roles[k].color)),
                        new: ValueView::Number(color),
                    },
                ],
                RoleUpdate::ChangePosition(position) => seq![
                    ActionView::EditField {
                        target,
                        field: FieldName::Position,
                        old: Some(ValueView::Number(roles[k].position)),
                        new: ValueView::Number(position),
                    },
                ],
            }
        },
    }
}

/// The actions for the first `n` updates of one role.
pub open spec fn role_group_upto(updates: Seq<RoleUpdate>, n: nat, id: u64, roles: Seq<RoleView>) -> Seq<
    ActionView,
>
    decreases n,
{
    if n == 0 {
        Seq::empty()
    } else {
        role_group_upto(updates, (n - 1) as nat, id, roles) + role_update_actions(
            updates[n - 1],
            id,
            roles,
        )
    }
}

/// The actions for the first `n` groups of role updates.
pub open spec fn role_actions_upto(groups: Seq<(u64, Seq<RoleUpdate>)>, n: nat, roles: Seq<RoleView>) -> Seq<
    ActionView,
>
    decreases n,
{
    if n == 0 {
        Seq::empty()
    } else {
        role_actions_upto(groups, (n - 1) as nat, roles) + role_group_upto(
            groups[n - 1].1,
            groups[n - 1].1.len(),
            groups[n - 1].0,
            roles,
        )
    }
}

/// The actions that bring the guild in line with the teams: the new roles
/// with their members, then what the users gain and lose, then the changes to
/// existing roles, with every creation moved to the front. It fails with the
/// first error of the role plan, else with that of the first user that has
/// one, else where a new role has no position to go to.
pub open spec fn run_actions(
    teams: Seq<TeamView>,
    roles: Seq<RoleView>,
    users: Seq<(u64, GuildMemberView)>,
) -> Result<Seq<ActionView>, DiscordError> {
    let sides = discord_teams(teams);
    match role_plan_upto(sides, sides.len(), roles) {
        Err(e) => Err(e),
        Ok(plan) => match users_actions_upto(sides, users, users.len(), roles) {
            Err(e) => Err(e),
            Ok(user_actions) => if plan.new_roles.len() > 0 && plan.min_managed_role_position
                == Some(0u64) {
                Err(DiscordError::NoPositionBelow)
            } else {
                Ok(
                    creates_first(
                        creation_upto(
                            plan.new_roles,
                            plan.new_roles.len(),
                            plan.min_managed_role_position,
                            users,
                        ) + user_actions + role_actions_upto(
                            plan.role_updates,
                            plan.role_updates.len(),
                            roles,
                        ),
                    ),
                )
            },
        },
    }
}

/// Whether `id` is among the users that were found in the guild.
pub fn is_known_user(users: &Vec<(u64, GuildMember)>, id: u64) -> (b: bool)
    ensures
        b == known_user(users.deep_view(), id),
{
    let ghost wanted = user_numbered(id);
    let ghost view = users.deep_view();
    let mut i: usize = 0;
    while i < users.len()
        invariant
            i <= users.len(),
            view == users.deep_view(),
            wanted == user_numbered(id),
            forall|j: int| 0 <= j < i ==> !wanted(#[trigger] view[j]),
        decreases users.len() - i,
    {
        if users[i].0 == id {
            proof {
                assert(wanted(view[i as int]));
                lemma_first_where_is(view, wanted, i as int);
            }
            return true;
        }
        assert(!wanted(view[i as int]));
        i += 1;
    }
    proof {
        lemma_first_where_none(view, wanted);
    }
    false
}

fn make_role_target(name: &String, identity: Identity) -> (t: Target)
    ensures
        t.deep_view() == role_target(name@, identity),
{
    Target { kind: Kind::Role, name: name.clone(), identity }
}

fn new_role_plan(
    new_roles: &Vec<NewRole>,
    k: usize,
    min: Option<u64>,
    users: &Vec<(u64, GuildMember)>,
) -> (r: Vec<Action>)
    requires
        k < new_roles.len(),
        min != Some(0u64),
    ensures
        r.deep_view() == new_role_actions(new_roles.deep_view(), k as int, min, users.deep_view()),
{
    let ghost all = new_roles.deep_view();
    let ghost found = users.deep_view();
    let role = &new_roles[k];
    assert(all[k as int] == role.deep_view());
    let ghost wanted = new_role_named(role.name@);
    let ghost earlier = all.take(k as int);
    let mut out: Vec<Action> = Vec::new();
    assert(out.deep_view() =~= Seq::<ActionView>::empty());
    let mut j: usize = 0;
    while j < k
        invariant
            j <= k < new_roles.len(),
            all == new_roles.deep_view(),
            all[k as int] == role.deep_view(),
            earlier == all.take(k as int),
            wanted == new_role_named(role.name@),
            out.deep_view() == Seq::<ActionView>::empty(),
            forall|i: int| 0 <= i < j ==> !wanted(#[trigger] earlier[i]),
        decreases k - j,
    {
        if new_roles[j].name == role.name {
            proof {
                assert(earlier[j as int] == new_roles[j as int].deep_view());
                assert(wanted(earlier[j as int]));
                lemma_first_where_is(earlier, wanted, j as int);
            }
            return out;
        }
        assert(earlier[j as int] == new_roles[j as int].deep_view());
        assert(!wanted(earlier[j as int]));
        j += 1;
    }
    proof {
        lemma_first_where_none(earlier, wanted);
    }
    let ghost target = role_target(role.name@, Identity::Pending(k as u64));
    let mut fields: Vec<Field> = Vec::new();
    fields.push(Field { name: FieldName::Color, value: Value::Number(role.color) });
    assert(fields.deep_view() =~= seq![
        FieldView { name: FieldName::Color, value: ValueView::Number(role.color) },
    ]);
    out.push(
        Action::CreateEntity {
            target: make_role_target(&role.name, Identity::Pending(k as u64)),
            fields,
        },
    );
    match min {
        Some(p) => {
            out.push(
                Action::EditField {
                    target: make_role_target(&role.name, Identity::Pending(k as u64)),
                    field: FieldName::Position,
                    old: None,
                    new: Value::Number(p - 1),
                },
            );
        },
        None => {},
    }
    let ghost head = out.deep_view();
    assert(head =~= seq![
        ActionView::CreateEntity {
            target,
            fields: seq![FieldView { name: FieldName::Color, value: ValueView::Number(role.color) }],
        },
    ] + (match min {
        Some(p) => seq![
            ActionView::EditField {
                target,
                field: FieldName::Position,
                old: None,
                new: ValueView::Number((p - 1) as u64),
            },
        ],
        None => Seq::empty(),
    }));
    let mut m: usize = 0;
    while m < role.members.len()
        invariant
            m <= role.members.len(),
            found == users.deep_view(),
            target == role_target(role.name@, Identity::Pending(k as u64)),
            out.deep_view() == head + member_adds_upto(target, role.members@, m as nat, found),
        decreases role.members.len() - m,
    {
        let member = role.members[m];
        let ghost before = out.deep_view();
        if is_known_user(users, member) {
            out.push(
                Action::AddRelation {
                    target: make_role_target(&role.name, Identity::Pending(k as u64)),
                    related: member,
                    role: TeamRole::Member,
                },
            );
            assert(out.deep_view() =~= before.push(
                ActionView::AddRelation { target, related: member, role: TeamRole::Member },
            ));
        }
        assert(out.deep_view() =~= head + member_adds_upto(
            target,
            role.members@,
            (m + 1) as nat,
            found,
        ));
        m += 1;
    }
    out
}

fn user_update_plan(update: UserUpdate, user_id: u64, guild_roles: &Vec<Role>) -> (r: Vec<Action>)
    ensures
        r.deep_view() == user_update_actions(update, user_id, guild_roles.deep_view()),
{
    let id = match update {
        UserUpdate::AddRole(id) => id,
        UserUpdate::RemoveRole(id) => id,
    };
    let mut out: Vec<Action> = Vec::new();
    assert(out.deep_view() =~= Seq::<ActionView>::empty());
    match find_role_by_id(guild_roles, id) {
        None => {},
        Some(k) => {
            assert(guild_roles.deep_view()[k as int] == guild_roles[k as int].deep_view());
            let target = make_role_target(&guild_roles[k].name, Identity::Committed(id));
            let ghost t = target.deep_view();
            match update {
                UserUpdate::AddRole(_) => {
                    out.push(
                        Action::AddRelation { target, related: user_id, role: TeamRole::Member },
                    );
                    assert(out.deep_view() =~= seq![
                        ActionView::AddRelation {
                            target: t,
                            related: user_id,
                            role: TeamRole::Member,
                        },
                    ]);
                },
                UserUpdate::RemoveRole(_) => {
                    out.push(Action::RemoveRelation { target, related: user_id });
                    assert(out.deep_view() =~= seq![
                        ActionView::RemoveRelation { target: t, related: user_id },
                    ]);
                },
            }
        },
    }
    out
}

fn role_update_plan(update: RoleUpdate, id: u64, guild_roles: &Vec<Role>) -> (r: Vec<Action>)
    ensures
        r.deep_view() == role_update_actions(update, id, guild_roles.deep_view()),
{
    let mut out: Vec<Action> = Vec::new();
    assert(out.deep_view() =~= Seq::<ActionView>::empty());
    match find_role_by_id(guild_roles, id) {
        None => {},
        Some(k) => {
            let role = &guild_roles[k];
            assert(guild_roles.deep_view()[k as int] == role.deep_view());
            let target = make_role_target(&role.name, Identity::Committed(id));
            let ghost t = target.deep_view();
            match update {
                RoleUpdate::ChangeColor(color) => {
                    out.push(
                        Action::EditField {
                            target,
                            field: FieldName::Color,
                            old: Some(Value::Number(role.color)),
                            new: Value::Number(color),
                        },
                    );
                    assert(out.deep_view() =~= seq![
                        ActionView::EditField {
                            target: t,
                            field: FieldName::Color,
                            old: Some(ValueView::Number(role.color)),
                            new: ValueView::Number(color),
                        },
                    ]);
                },
                RoleUpdate::ChangePosition(position) => {
                    out.push(
                        Action::EditField {
                            target,
                            field: FieldName::Position,
                            old: Some(Value::Number(role.position)),
                            new: Value::Number(position),
                        },
                    );
                    assert(out.deep_view() =~= seq![
                        ActionView::EditField {
                            target: t,
                            field: FieldName::Position,
                            old: Some(ValueView::Number(role.position)),
                            new: ValueView::Number(position),
                        },
                    ]);
                },
            }
        },
    }
    out
}

impl SyncDiscord {
    /// Compares the teams with the guild and the users found there, and gives
    /// the actions that bring the guild in line, ordered for replay.
    pub fn run(&self, guild: &Guild, users: &Vec<(u64, GuildMember)>) -> (r: Result<
        Diff,
        DiscordError,
    >)
        ensures
            match r {
                Ok(diff) => run_actions(
                    self.teams.deep_view(),
                    guild.roles.deep_view(),
                    users.deep_view(),
                ) == Ok::<Seq<ActionView>, DiscordError>(diff.deep_view()) && creations_lead(
                    diff.deep_view(),
                ),
                Err(e) => run_actions(
                    self.teams.deep_view(),
                    guild.roles.deep_view(),
                    users.deep_view(),
                ) == Err::<Seq<ActionView>, DiscordError>(e),
            },
    {
        let ghost sides = discord_teams(self.teams.deep_view());
        let ghost roles = guild.roles.deep_view();
        let ghost found = users.deep_view();
        let plan = match self.get_role_updates(&guild.roles) {
            Err(e) => {
                return Err(e);
            },
            Ok(plan) => plan,
        };
        let ghost planned = plan.deep_view();

        let mut user_actions: Vec<Action> = Vec::new();
        assert(user_actions.deep_view() =~= Seq::<ActionView>::empty());
        let mut u: usize = 0;
        while u < users.len()
            invariant
                u <= users.len(),
                sides == discord_teams(self.teams.deep_view()),
                roles == guild.roles.deep_view(),
                found == users.deep_view(),
                role_plan_upto(sides, sides.len(), roles) == Ok::<RolePlanView, DiscordError>(
                    planned,
                ),
                users_actions_upto(sides, found, u as nat, roles) == Ok::<
                    Seq<ActionView>,
                    DiscordError,
                >(user_actions.deep_view()),
            decreases users.len() - u,
        {
            let user_id = users[u].0;
            assert(found[u as int] == (users[u as int].0, users[u as int].1.deep_view()));
            let updates = match self.get_user_updates(user_id, &users[u].1, &guild.roles) {
                Err(e) => {
                    proof {
                        lemma_users_actions_stay_failed(
                            sides,
                            found,
                            (u + 1) as nat,
                            found.len(),
                            roles,
                        );
                    }
                    return Err(e);
                },
                Ok(updates) => updates,
            };
            let ghost before = user_actions.deep_view();
            let mut i: usize = 0;
            while i < updates.len()
                invariant
                    i <= updates.len(),
                    roles == guild.roles.deep_view(),
                    user_actions.deep_view() == before + user_actions_upto(
                        updates@,
                        i as nat,
                        user_id,
                        roles,
                    ),
                decreases updates.len() - i,
            {
                append_actions(&mut user_actions, user_update_plan(updates[i], user_id, &guild.roles));
                assert(user_actions.deep_view() =~= before + user_actions_upto(
                    updates@,
                    (i + 1) as nat,
                    user_id,
                    roles,
                ));
                i += 1;
            }
            u += 1;
        }

        let min = plan.min_managed_role_position;
        if plan.new_roles.len() > 0 && min == Some(0) {
            return Err(DiscordError::NoPositionBelow);
        }
        let mut actions: Vec<Action> = Vec::new();
        assert(actions.deep_view() =~= Seq::<ActionView>::empty());
        let mut k: usize = 0;
        while k < plan.new_roles.len()
            invariant
                k <= plan.new_roles.len(),
                found == users.deep_view(),
                planned == plan.deep_view(),
                min == plan.min_managed_role_position,
                plan.new_roles.len() > 0 ==> min != Some(0u64),
                actions.deep_view() == creation_upto(planned.new_roles, k as nat, min, found),
            decreases plan.new_roles.len() - k,
        {
            append_actions(&mut actions, new_role_plan(&plan.new_roles, k, min, users));
            k += 1;
        }
        let ghost creation = actions.deep_view();
        let ghost gained = user_actions.deep_view();
        append_actions(&mut actions, user_actions);

        let mut changes: Vec<Action> = Vec::new();
        assert(changes.deep_view() =~= Seq::<ActionView>::empty());
        let mut g: usize = 0;
        while g < plan.role_updates.entries.len()
            invariant
                g <= plan.role_updates.entries.len(),
                roles == guild.roles.deep_view(),
                planned == plan.deep_view(),
                planned.role_updates.len() == plan.role_updates.entries.len(),
                changes.deep_view() == role_actions_upto(planned.role_updates, g as nat, roles),
            decreases plan.role_updates.entries.len() - g,
        {
            let id = plan.role_updates.entries[g].0;
            let updates = &plan.role_updates.entries[g].1;
            assert(planned.role_updates[g as int] == (id, updates@));
            let ghost before = changes.deep_view();
            let mut i: usize = 0;
            while i < updates.len()
                invariant
                    i <= updates.len(),
                    roles == guild.roles.deep_view(),
                    changes.deep_view() == before + role_group_upto(updates@, i as nat, id, roles),
                decreases updates.len() - i,
            {
                append_actions(&mut changes, role_update_plan(updates[i], id, &guild.roles));
                assert(changes.deep_view() =~= before + role_group_upto(
                    updates@,
                    (i + 1) as nat,
                    id,
                    roles,
                ));
                i += 1;
            }
            g += 1;
        }
        let ghost changed = changes.deep_view();
        append_actions(&mut actions, changes);
        assert(actions.deep_view() =~= creation + gained + changed);
        Ok(Diff::ordered(actions))
    }
}

/// A user who holds the role of a Discord team without being one of its
/// members is asked to lose it.
pub proof fn lemma_unlisted_member_loses_role(
    team: DiscordTeamView,
    user_id: u64,
    current: Seq<Seq<char>>,
    roles: Seq<RoleView>,
)
    requires
        first_where(roles, role_named(team.name)) is Some,
        unsigned_number(roles[first_where(roles, role_named(team.name))->Some_0].id, 10) is Some,
        current.contains(
            decimal(
                unsigned_number(roles[first_where(roles, role_named(team.name))->Some_0].id, 10)->Some_0
                    as nat,
            ),
        ),
        !team.members.contains(user_id),
    ensures
        user_step(team, user_id, current, roles) == Ok::<Seq<UserUpdate>, DiscordError>(
            seq![
                UserUpdate::RemoveRole(
                    unsigned_number(
                        roles[first_where(roles, role_named(team.name))->Some_0].id,
                        10,
                    )->Some_0,
                ),
            ],
        ),
{
}

/// A user whose roles are in line with every Discord team is asked nothing:
/// the plan for a user is empty once the plan before it was carried out.
pub proof fn lemma_user_in_line_needs_nothing(
    teams: Seq<DiscordTeamView>,
    n: nat,
    user_id: u64,
    current: Seq<Seq<char>>,
    roles: Seq<RoleView>,
)
    requires
        n <= teams.len(),
        forall|i: int|
            0 <= i < teams.len() ==> user_step(#[trigger] teams[i], user_id, current, roles) == Ok::<
                Seq<UserUpdate>,
                DiscordError,
            >(Seq::empty()),
    ensures
        user_plan_upto(teams, n, user_id, current, roles) == Ok::<Seq<UserUpdate>, DiscordError>(
            Seq::empty(),
        ),
    decreases n,
{
    if n > 0 {
        lemma_user_in_line_needs_nothing(teams, (n - 1) as nat, user_id, current, roles);
        assert(Seq::<UserUpdate>::empty() + Seq::<UserUpdate>::empty() =~= Seq::<UserUpdate>::empty());
    }
}

/// What it is for the roles of a user to be in line with a Discord team: where
/// the guild has the team's role and its id reads as a number, the user holds
/// the role exactly if the user is a member of the team. Then the team asks
/// nothing of the user.
pub proof fn lemma_in_line_step(
    team: DiscordTeamView,
    user_id: u64,
    current: Seq<Seq<char>>,
    roles: Seq<RoleView>,
)
    requires
        first_where(roles, role_named(team.name)) matches Some(k) ==> (unsigned_number(
            roles[k].id,
            10,
        ) matches Some(id) && team.members.contains(user_id) == current.contains(
            decimal(id as nat),
        )),
    ensures
        user_step(team, user_id, current, roles) == Ok::<Seq<UserUpdate>, DiscordError>(
            Seq::empty(),
        ),
{
}

/// What the plan for a user holds: every update that one of the Discord teams
/// asks for.
proof fn lemma_plan_holds_step(
    teams: Seq<DiscordTeamView>,
    n: nat,
    t: int,
    user_id: u64,
    current: Seq<Seq<char>>,
    roles: Seq<RoleView>,
    update: UserUpdate,
)
    requires
        0 <= t < n <= teams.len(),
        user_plan_upto(teams, n, user_id, current, roles) is Ok,
        user_step(teams[t], user_id, current, roles) is Ok,
        user_step(teams[t], user_id, current, roles)->Ok_0.contains(update),
    ensures
        user_plan_upto(teams, n, user_id, current, roles)->Ok_0.contains(update),
    decreases n,
{
    let before = user_plan_upto(teams, (n - 1) as nat, user_id, current, roles);
    let step = user_step(teams[n - 1], user_id, current, roles);
    assert(before is Ok && step is Ok);
    let all = before->Ok_0 + step->Ok_0;
    if t == n - 1 {
        let j = choose|j: int| 0 <= j < step->Ok_0.len() && step->Ok_0[j] == update;
        assert(all[before->Ok_0.len() + j] == update);
    } else {
        lemma_plan_holds_step(teams, (n - 1) as nat, t, user_id, current, roles, update);
        let j = choose|j: int| 0 <= j < before->Ok_0.len() && before->Ok_0[j] == update;
        assert(all[j] == update);
    }
}

/// The actions for the updates of a user hold the actions of each update.
proof fn lemma_user_actions_hold(
    updates: Seq<UserUpdate>,
    n: nat,
    j: int,
    user_id: u64,
    roles: Seq<RoleView>,
    action: ActionView,
)
    requires
        0 <= j < n <= updates.len(),
        user_update_actions(updates[j], user_id, roles).contains(action),
    ensures
        user_actions_upto(updates, n, user_id, roles).contains(action),
    decreases n,
{
    let before = user_actions_upto(updates, (n - 1) as nat, user_id, roles);
    let step = user_update_actions(updates[n - 1], user_id, roles);
    let all = before + step;
    if j == n - 1 {
        let i = choose|i: int| 0 <= i < step.len() && step[i] == action;
        assert(all[before.len() + i] == action);
    } else {
        lemma_user_actions_hold(updates, (n - 1) as nat, j, user_id, roles, action);
        let i = choose|i: int| 0 <= i < before.len() && before[i] == action;
        assert(all[i] == action);
    }
}

/// The actions for the users hold the actions for each user.
proof fn lemma_users_actions_hold(
    teams: Seq<DiscordTeamView>,
    users: Seq<(u64, GuildMemberView)>,
    n: nat,
    u: int,
    roles: Seq<RoleView>,
    action: ActionView,
)
    requires
        0 <= u < n <= users.len(),
        users_actions_upto(teams, users, n, roles) is Ok,
    ensures
        user_plan_upto(teams, teams.len(), users[u].0, users[u].1.roles, roles) is Ok,
        ({
            let updates = user_plan_upto(
                teams,
                teams.len(),
                users[u].0,
                users[u].1.roles,
                roles,
            )->Ok_0;
            user_actions_upto(updates, updates.len(), users[u].0, roles).contains(action)
                ==> users_actions_upto(teams, users, n, roles)->Ok_0.contains(action)
        }),
    decreases n,
{
    let before = users_actions_upto(teams, users, (n - 1) as nat, roles);
    let plan = user_plan_upto(teams, teams.len(), users[n - 1].0, users[n - 1].1.roles, roles);
    assert(before is Ok && plan is Ok);
    let step = user_actions_upto(plan->Ok_0, plan->Ok_0.len(), users[n - 1].0, roles);
    let all = before->Ok_0 + step;
    if u == n - 1 {
        if step.contains(action) {
            let i = choose|i: int| 0 <= i < step.len() && step[i] == action;
            assert(all[before->Ok_0.len() + i] == action);
        }
    } else {
        lemma_users_actions_hold(teams, users, (n - 1) as nat, u, roles, action);
        let updates = user_plan_upto(
            teams,
            teams.len(),
            users[u].0,
            users[u].1.roles,
            roles,
        )->Ok_0;
        if user_actions_upto(updates, updates.len(), users[u].0, roles).contains(action) {
            let i = choose|i: int| 0 <= i < before->Ok_0.len() && before->Ok_0[i] == action;
            assert(all[i] == action);
        }
    }
}

/// Removal of what is no longer desired. Where a user that `run` is given
/// holds the role of a Discord team without being one of its members, the diff
/// of `run` holds the action that takes the role from this user.
pub proof fn lemma_run_removes_unlisted(
    teams: Seq<TeamView>,
    roles: Seq<RoleView>,
    users: Seq<(u64, GuildMemberView)>,
    u: int,
    t: int,
    k: int,
    id: u64,
)
    requires
        run_actions(teams, roles, users) is Ok,
        0 <= u < users.len(),
        0 <= t < discord_teams(teams).len(),
        first_where(roles, role_named(discord_teams(teams)[t].name)) == Some(k),
        unsigned_number(roles[k].id, 10) == Some(id),
        users[u].1.roles.contains(decimal(id as nat)),
        !discord_teams(teams)[t].members.contains(users[u].0),
    ensures
        first_where(roles, role_numbered(id)) is Some,
        run_actions(teams, roles, users)->Ok_0.contains(
            ActionView::RemoveRelation {
                target: role_target(
                    roles[first_where(roles, role_numbered(id))->Some_0].name,
                    Identity::Committed(id),
                ),
                related: users[u].0,
            },
        ),
{
    broadcast use vstd::seq_lib::group_to_multiset_ensures;

    let sides = discord_teams(teams);
    let user_id = users[u].0;
    let current = users[u].1.roles;
    let update = UserUpdate::RemoveRole(id);
    crate::seqs::lemma_first_where(roles, role_named(sides[t].name));
    crate::seqs::lemma_first_where(roles, role_numbered(id));
    assert(role_numbered(id)(roles[k]));
    let at = first_where(roles, role_numbered(id))->Some_0;
    let action = ActionView::RemoveRelation {
        target: role_target(roles[at].name, Identity::Committed(id)),
        related: user_id,
    };
    let plan = role_plan_upto(sides, sides.len(), roles)->Ok_0;
    let user_actions = users_actions_upto(sides, users, users.len(), roles)->Ok_0;
    lemma_users_actions_hold(sides, users, users.len(), u, roles, action);
    let updates = user_plan_upto(sides, sides.len(), user_id, current, roles)->Ok_0;
    assert(user_step(sides[t], user_id, current, roles) == Ok::<Seq<UserUpdate>, DiscordError>(
        seq![update],
    ));
    assert(seq![update][0] == update);
    lemma_plan_holds_step(sides, sides.len(), t, user_id, current, roles, update);
    let j = choose|j: int| 0 <= j < updates.len() && updates[j] == update;
    assert(user_update_actions(update, user_id, roles) =~= seq![action]);
    assert(seq![action][0] == action);
    lemma_user_actions_hold(updates, updates.len(), j, user_id, roles, action);
    assert(user_actions.contains(action));
    let creation = creation_upto(
        plan.new_roles,
        plan.new_roles.len(),
        plan.min_managed_role_position,
        users,
    );
    let changes = role_actions_upto(plan.role_updates, plan.role_updates.len(), roles);
    let all = creation + user_actions + changes;
    let i = choose|i: int| 0 <= i < user_actions.len() && user_actions[i] == action;
    assert(all[creation.len() + i] == action);
    assert(all.contains(action));
    crate::model::lemma_creates_first(all);
    assert(creates_first(all).to_multiset().count(action) > 0);
}

proof fn lemma_users_actions_stay_failed(
    teams: Seq<DiscordTeamView>,
    users: Seq<(u64, GuildMemberView)>,
    n: nat,
    m: nat,
    roles: Seq<RoleView>,
)
    requires
        n <= m,
        users_actions_upto(teams, users, n, roles) is Err,
    ensures
        users_actions_upto(teams, users, m, roles) == users_actions_upto(teams, users, n, roles),
    decreases m,
{
    if n < m {
        lemma_users_actions_stay_failed(teams, users, n, (m - 1) as nat, roles);
    }
}

} // verus!
