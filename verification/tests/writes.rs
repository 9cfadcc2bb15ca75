use sync_team::diff::diff;
use sync_team::discord::api::Discord;
use sync_team::github::api::{GitHub, Team, TeamMember};
use sync_team::github::snapshot::{desired_team, desired_teams, live_team, GitHubTeam};
use sync_team::github::write::{find_slash, Write};
use sync_team::http::{Encoding, Method, Param};
use sync_team::model::{
    Action, Entity, Field, FieldName, Identity, Kind, Relation, Target, TeamPrivacy, TeamRole, Value,
};

fn team_target(name: &str, identity: Identity) -> Target {
    Target { kind: Kind::Team, name: name.to_string(), identity }
}

fn role_target(name: &str, identity: Identity) -> Target {
    Target { kind: Kind::Role, name: name.to_string(), identity }
}

#[test]
fn snapshots_of_teams() {
    let desired = desired_team("rust-lang", "lang", "The language team", TeamPrivacy::Closed, &vec![7], &vec![1, 2]);
    assert_eq!(
        desired,
        Entity {
            kind: Kind::Team,
            name: "rust-lang/lang".to_string(),
            identity: Identity::Pending(0),
            fields: vec![
                Field { name: FieldName::Description, value: Value::Text("The language team".to_string()) },
                Field { name: FieldName::Privacy, value: Value::Text("closed".to_string()) },
            ],
            relations: vec![
                Relation { related: 7, role: TeamRole::Maintainer },
                Relation { related: 1, role: TeamRole::Member },
                Relation { related: 2, role: TeamRole::Member },
            ],
        }
    );
    let team = Team {
        id: Some(55),
        name: "lang".to_string(),
        description: "Old words".to_string(),
        privacy: TeamPrivacy::Secret,
        slug: "lang".to_string(),
    };
    let members = vec![
        TeamMember { id: 1, username: "alice".to_string(), role: TeamRole::Member },
        TeamMember { id: 9, username: "zed".to_string(), role: TeamRole::Maintainer },
    ];
    let live = live_team("rust-lang", &team, &members);
    assert_eq!(live.name, "rust-lang/lang");
    assert_eq!(live.identity, Identity::Committed(55));
    assert_eq!(
        live.relations,
        vec![
            Relation { related: 1, role: TeamRole::Member },
            Relation { related: 9, role: TeamRole::Maintainer },
        ]
    );
    let result = diff(&vec![desired], &vec![live]);
    let target = team_target("rust-lang/lang", Identity::Committed(55));
    assert_eq!(
        result.actions,
        vec![
            Action::EditField {
                target: target.clone(),
                field: FieldName::Description,
                old: Some(Value::Text("Old words".to_string())),
                new: Value::Text("The language team".to_string()),
            },
            Action::EditField {
                target: target.clone(),
                field: FieldName::Privacy,
                old: Some(Value::Text("secret".to_string())),
                new: Value::Text("closed".to_string()),
            },
            Action::AddRelation { target: target.clone(), related: 7, role: TeamRole::Maintainer },
            Action::AddRelation { target: target.clone(), related: 2, role: TeamRole::Member },
            Action::RemoveRelation { target, related: 9 },
        ]
    );
}

#[test]
fn the_first_slash_splits_a_team_key() {
    assert_eq!(find_slash("rust-lang/lang"), Some(9));
    assert_eq!(find_slash("a/b/c"), Some(1));
    assert_eq!(find_slash("/x"), Some(0));
    assert_eq!(find_slash("nothing"), None);
    assert_eq!(find_slash(""), None);
}

#[test]
fn github_writes_for_each_action() {
    let github = GitHub::new("t0ken".to_string(), false);
    let create = Action::CreateEntity {
        target: team_target("rust-lang/lang", Identity::Pending(0)),
        fields: vec![
            Field { name: FieldName::Description, value: Value::Text("The language team".to_string()) },
            Field { name: FieldName::Privacy, value: Value::Text("secret".to_string()) },
        ],
    };
    match github.write(&create, "") {
        Write::Send(request) => {
            assert_eq!(request.method, Method::Post);
            assert_eq!(request.url, "https://api.github.com/orgs/rust-lang/teams");
            assert_eq!(
                request.body,
                vec![
                    ("name".to_string(), Param::Text("lang".to_string())),
                    ("description".to_string(), Param::Text("The language team".to_string())),
                    ("privacy".to_string(), Param::Text("secret".to_string())),
                ]
            );
        }
        other => panic!("unexpected {:?}", other),
    }
    let edit = Action::EditField {
        target: team_target("rust-lang/lang", Identity::Committed(55)),
        field: FieldName::Description,
        old: None,
        new: Value::Text("New words".to_string()),
    };
    match github.write(&edit, "") {
        Write::Send(request) => {
            assert_eq!((request.method, request.url.as_str()), (Method::Patch, "https://api.github.com/teams/55"));
            assert_eq!(request.body, vec![("description".to_string(), Param::Text("New words".to_string()))]);
        }
        other => panic!("unexpected {:?}", other),
    }
    let add = Action::AddRelation {
        target: team_target("rust-lang/lang", Identity::Committed(55)),
        related: 1,
        role: TeamRole::Maintainer,
    };
    match github.write(&add, "alice") {
        Write::Send(request) => {
            assert_eq!(
                (request.method, request.url.as_str()),
                (Method::Put, "https://api.github.com/teams/55/memberships/alice")
            );
            assert_eq!(request.body, vec![("role".to_string(), Param::Text("maintainer".to_string()))]);
        }
        other => panic!("unexpected {:?}", other),
    }
    let remove = Action::RemoveRelation {
        target: team_target("rust-lang/lang", Identity::Committed(55)),
        related: 1,
    };
    match github.write(&remove, "alice") {
        Write::Send(request) => assert_eq!(
            (request.method, request.url.as_str()),
            (Method::Delete, "https://api.github.com/teams/55/memberships/alice")
        ),
        other => panic!("unexpected {:?}", other),
    }
}

#[test]
fn github_sends_nothing_where_nothing_can_be_sent() {
    let live = GitHub::new("t0ken".to_string(), false);
    let dry = GitHub::new("t0ken".to_string(), true);
    let pending = Action::AddRelation {
        target: team_target("rust-lang/lang", Identity::Pending(0)),
        related: 1,
        role: TeamRole::Member,
    };
    assert_eq!(live.write(&pending, "alice"), Write::Simulated);
    let committed = Action::RemoveRelation {
        target: team_target("rust-lang/lang", Identity::Committed(55)),
        related: 1,
    };
    assert_eq!(dry.write(&committed, "alice"), Write::Simulated);
    let create = Action::CreateEntity {
        target: team_target("rust-lang/lang", Identity::Pending(0)),
        fields: vec![],
    };
    assert_eq!(dry.write(&create, ""), Write::Simulated);
    let no_org =
        Action::CreateEntity { target: team_target("lang", Identity::Pending(0)), fields: vec![] };
    assert_eq!(live.write(&no_org, ""), Write::Unsupported);
    let role = Action::RemoveRelation { target: role_target("mods", Identity::Committed(3)), related: 1 };
    assert_eq!(live.write(&role, "alice"), Write::Unsupported);
    assert_eq!(dry.write(&role, "alice"), Write::Unsupported);
}

#[test]
fn discord_writes_for_each_action() {
    let discord = Discord::new("secret".to_string());
    let create = Action::CreateEntity {
        target: role_target("mods", Identity::Pending(0)),
        fields: vec![Field { name: FieldName::Color, value: Value::Number(255) }],
    };
    let request = discord.write("9000", &create).unwrap();
    assert_eq!((request.method, request.url.as_str()), (Method::Post, "https://discord.com/api/v8/guilds/9000/roles"));
    assert_eq!(
        request.body,
        vec![
            ("name".to_string(), Param::Text("mods".to_string())),
            ("color".to_string(), Param::Number(255)),
        ]
    );
    let color = Action::EditField {
        target: role_target("mods", Identity::Committed(11)),
        field: FieldName::Color,
        old: Some(Value::Number(1)),
        new: Value::Number(2),
    };
    let request = discord.write("9000", &color).unwrap();
    assert_eq!(
        (request.method, request.url.as_str()),
        (Method::Patch, "https://discord.com/api/v8/guilds/9000/roles/11")
    );
    assert_eq!(request.body, vec![("color".to_string(), Param::Number(2))]);
    let position = Action::EditField {
        target: role_target("mods", Identity::Committed(11)),
        field: FieldName::Position,
        old: None,
        new: Value::Number(3),
    };
    let request = discord.write("9000", &position).unwrap();
    assert_eq!(request.url, "https://discord.com/api/v8/guilds/9000/roles");
    assert_eq!(request.encoding, Encoding::JsonList);
    assert_eq!(
        request.body,
        vec![
            ("id".to_string(), Param::Text("11".to_string())),
            ("position".to_string(), Param::Number(3)),
        ]
    );
    let add = Action::AddRelation {
        target: role_target("mods", Identity::Committed(11)),
        related: 42,
        role: TeamRole::Member,
    };
    let request = discord.write("9000", &add).unwrap();
    assert_eq!(
        (request.method, request.url.as_str()),
        (Method::Put, "https://discord.com/api/v8/guilds/9000/members/42/roles/11")
    );
    let remove = Action::RemoveRelation { target: role_target("mods", Identity::Committed(11)), related: 42 };
    assert_eq!(discord.write("9000", &remove).unwrap().method, Method::Delete);
}

#[test]
fn discord_sends_nothing_where_nothing_can_be_sent() {
    let discord = Discord::new("secret".to_string());
    let pending = Action::AddRelation {
        target: role_target("mods", Identity::Pending(0)),
        related: 42,
        role: TeamRole::Member,
    };
    assert_eq!(discord.write("9000", &pending), None);
    let team = Action::RemoveRelation { target: team_target("x/y", Identity::Committed(1)), related: 1 };
    assert_eq!(discord.write("9000", &team), None);
    let other_field = Action::EditField {
        target: role_target("mods", Identity::Committed(11)),
        field: FieldName::Description,
        old: None,
        new: Value::Number(3),
    };
    assert_eq!(discord.write("9000", &other_field), None);
    let text_color = Action::EditField {
        target: role_target("mods", Identity::Committed(11)),
        field: FieldName::Color,
        old: None,
        new: Value::Text("red".to_string()),
    };
    assert_eq!(discord.write("9000", &text_color), None);
}

#[test]
fn teams_of_ignored_organisations_are_passed_over() {
    let described = vec![
        GitHubTeam { org: "rust-lang".to_string(), name: "lang".to_string(), members: vec![1] },
        GitHubTeam { org: "rust-lang-nursery".to_string(), name: "x".to_string(), members: vec![2] },
        GitHubTeam { org: "rust-lang".to_string(), name: "infra".to_string(), members: vec![] },
    ];
    let desired = desired_teams(
        &described,
        &vec!["rust-lang-nursery".to_string()],
        "Managed",
        TeamPrivacy::Closed,
    );
    assert_eq!(
        desired,
        vec![
            desired_team("rust-lang", "lang", "Managed", TeamPrivacy::Closed, &vec![], &vec![1]),
            desired_team("rust-lang", "infra", "Managed", TeamPrivacy::Closed, &vec![], &vec![]),
        ]
    );
    assert_eq!(desired_teams(&described, &vec![], "Managed", TeamPrivacy::Closed).len(), 3);
}
