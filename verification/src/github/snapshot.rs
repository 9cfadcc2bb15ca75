//! Snapshots of GitHub teams: the desired ones as the description gives them,
//! the live ones as the API shows them, both in the shape that the diff engine
//! compares.

use crate::github::api::{privacy_name, Team, TeamMember};
use crate::model::{
    Entity, EntityView, Field, FieldName, FieldView, Identity, Kind, Relation, TeamPrivacy,
    TeamRole, Value, ValueView,
};
use crate::seqs::contains_text;
use vstd::prelude::*;

verus! {

/// The name under which a team of an organisation stands in a snapshot.
pub open spec fn team_key(org: Seq<char>, name: Seq<char>) -> Seq<char> {
    org + "/"@ + name
}

/// The managed fields of a team: its description and its privacy.
pub open spec fn team_fields(description: Seq<char>, privacy: TeamPrivacy) -> Seq<FieldView> {
    seq![
        FieldView { name: FieldName::Description, value: ValueView::Text(description) },
        FieldView { name: FieldName::Privacy, value: ValueView::Text(privacy_name(privacy)) },
    ]
}

/// The given accounts as relations with one role.
pub open spec fn with_role(ids: Seq<u64>, role: TeamRole) -> Seq<Relation> {
    Seq::new(ids.len(), |i: int| Relation { related: ids[i], role })
}

/// The members of a team as relations.
pub open spec fn member_relations(members: Seq<TeamMember>) -> Seq<Relation> {
    Seq::new(members.len(), |i: int| Relation { related: members[i].id, role: members[i].role })
}

/// The identity of a team as the API shows it: committed under its id, and
/// pending where a dry run made the team up.
pub open spec fn team_identity(id: Option<u64>) -> Identity {
    match id {
        Some(id) => Identity::Committed(id),
        None => Identity::Pending(0),
    }
}

fn fields_of(description: &str, privacy: TeamPrivacy) -> (fields: Vec<Field>)
    ensures
        fields.deep_view() == team_fields(description@, privacy),
{
    let mut fields: Vec<Field> = Vec::new();
    fields.push(
        Field { name: FieldName::Description, value: Value::Text(String::from_str(description)) },
    );
    fields.push(Field { name: FieldName::Privacy, value: Value::Text(privacy.to_string()) });
    assert(fields.deep_view() =~= team_fields(description@, privacy));
    fields
}

fn key_of_team(org: &str, name: &str) -> (key: String)
    ensures
        key@ == team_key(org@, name@),
{
    let mut key = String::from_str(org);
    key.append("/");
    key.append(name);
    key
}

/// A team as it is desired: its maintainers first, then its other members.
pub fn desired_team(
    org: &str,
    name: &str,
    description: &str,
    privacy: TeamPrivacy,
    maintainers: &Vec<u64>,
    members: &Vec<u64>,
) -> (entity: Entity)
    ensures
        entity.deep_view() == (EntityView {
            kind: Kind::Team,
            name: team_key(org@, name@),
            identity: Identity::Pending(0),
            fields: team_fields(description@, privacy),
            relations: with_role(maintainers@, TeamRole::Maintainer) + with_role(
                members@,
                TeamRole::Member,
            ),
        }),
{
    let mut relations: Vec<Relation> = Vec::new();
    let mut i: usize = 0;
    while i < maintainers.len()
        invariant
            i <= maintainers.len(),
            relations@ == with_role(maintainers@.take(i as int), TeamRole::Maintainer),
        decreases maintainers.len() - i,
    {
        relations.push(Relation { related: maintainers[i], role: TeamRole::Maintainer });
        assert(relations@ =~= with_role(maintainers@.take(i + 1), TeamRole::Maintainer));
        i += 1;
    }
    assert(maintainers@.take(maintainers.len() as int) =~= maintainers@);
    let ghost first = relations@;
    let mut j: usize = 0;
    while j < members.len()
        invariant
            j <= members.len(),
            relations@ == first + with_role(members@.take(j as int), TeamRole::Member),
        decreases members.len() - j,
    {
        relations.push(Relation { related: members[j], role: TeamRole::Member });
        assert(relations@ =~= first + with_role(members@.take(j + 1), TeamRole::Member));
        j += 1;
    }
    assert(members@.take(members.len() as int) =~= members@);
    Entity {
        kind: Kind::Team,
        name: key_of_team(org, name),
        identity: Identity::Pending(0),
        fields: fields_of(description, privacy),
        relations,
    }
}

/// A team as the platform has it, with its members in the order in which the
/// pages gave them.
pub fn live_team(org: &str, team: &Team, members: &Vec<TeamMember>) -> (entity: Entity)
    ensures
        entity.deep_view() == (EntityView {
            kind: Kind::Team,
            name: team_key(org@, team.name@),
            identity: team_identity(team.id),
            fields: team_fields(team.description@, team.privacy),
            relations: member_relations(members@),
        }),
{
    let mut relations: Vec<Relation> = Vec::new();
    let mut i: usize = 0;
    while i < members.len()
        invariant
            i <= members.len(),
            relations@ == member_relations(members@.take(i as int)),
        decreases members.len() - i,
    {
        relations.push(Relation { related: members[i].id, role: members[i].role });
        assert(relations@ =~= member_relations(members@.take(i + 1)));
        i += 1;
    }
    assert(members@.take(members.len() as int) =~= members@);
    let identity = match team.id {
        Some(id) => Identity::Committed(id),
        None => Identity::Pending(0),
    };
    Entity {
        kind: Kind::Team,
        name: key_of_team(org, team.name.as_str()),
        identity,
        fields: fields_of(team.description.as_str(), team.privacy),
        relations,
    }
}

/// A team of an organisation as the description gives it.
#[derive(Debug, PartialEq, Eq)]
pub struct GitHubTeam {
    pub org: String,
    pub name: String,
    pub members: Vec<u64>,
}

pub struct GitHubTeamView {
    pub org: Seq<char>,
    pub name: Seq<char>,
    pub members: Seq<u64>,
}

impl DeepView for GitHubTeam {
    type V = GitHubTeamView;

    open spec fn deep_view(&self) -> GitHubTeamView {
        GitHubTeamView { org: self.org@, name: self.name@, members: self.members@ }
    }
}

/// A described team as a desired entity: all of its members are plain members.
pub open spec fn desired_entity(team: GitHubTeamView, description: Seq<char>, privacy: TeamPrivacy) -> EntityView {
    EntityView {
        kind: Kind::Team,
        name: team_key(team.org, team.name),
        identity: Identity::Pending(0),
        fields: team_fields(description, privacy),
        relations: with_role(team.members, TeamRole::Member),
    }
}

/// The desired entities for the first `n` described teams: those of ignored
/// organisations are passed over.
pub open spec fn desired_upto(
    teams: Seq<GitHubTeamView>,
    n: nat,
    ignored: Seq<Seq<char>>,
    description: Seq<char>,
    privacy: TeamPrivacy,
) -> Seq<EntityView>
    decreases n,
{
    if n == 0 {
        Seq::empty()
    } else if ignored.contains(teams[n - 1].org) {
        desired_upto(teams, (n - 1) as nat, ignored, description, privacy)
    } else {
        desired_upto(teams, (n - 1) as nat, ignored, description, privacy).push(
            desired_entity(teams[n - 1], description, privacy),
        )
    }
}

/// The desired snapshot of the described teams, without those of the ignored
/// organisations.
pub fn desired_teams(
    teams: &Vec<GitHubTeam>,
    ignored_orgs: &Vec<String>,
    description: &str,
    privacy: TeamPrivacy,
) -> (r: Vec<Entity>)
    ensures
        r.deep_view() == desired_upto(
            teams.deep_view(),
            teams.len() as nat,
            ignored_orgs.deep_view(),
            description@,
            privacy,
        ),
{
    let ghost view = teams.deep_view();
    let ghost ignored = ignored_orgs.deep_view();
    let mut out: Vec<Entity> = Vec::new();
    assert(out.deep_view() =~= Seq::<EntityView>::empty());
    let none: Vec<u64> = Vec::new();
    assert(with_role(none@, TeamRole::Maintainer) =~= Seq::<Relation>::empty());
    let mut i: usize = 0;
    while i < teams.len()
        invariant
            i <= teams.len(),
            view == teams.deep_view(),
            ignored == ignored_orgs.deep_view(),
            with_role(none@, TeamRole::Maintainer) == Seq::<Relation>::empty(),
            out.deep_view() == desired_upto(view, i as nat, ignored, description@, privacy),
        decreases teams.len() - i,
    {
        let team = &teams[i];
        assert(view[i as int] == team.deep_view());
        if !contains_text(ignored_orgs, &team.org) {
            let ghost before = out.deep_view();
            let entity = desired_team(
                team.org.as_str(),
                team.name.as_str(),
                description,
                privacy,
                &none,
                &team.members,
            );
            assert(entity.deep_view().relations =~= with_role(team.members@, TeamRole::Member));
            out.push(entity);
            assert(out.deep_view() =~= before.push(
                desired_entity(view[i as int], description@, privacy),
            ));
        }
        i += 1;
    }
    out
}

} // verus!
