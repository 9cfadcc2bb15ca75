use std::collections::{HashMap, HashSet};
use sync_team::github::api::{team_node_id, user_node_id, Creation, GitHub, Team, TeamMember};
use sync_team::github::read::{
    add_ids, add_keyed, add_members, add_texts, add_usernames, branch_protections_query,
    members_query, put_keyed, GitHubApiRead, HttpClient, Username,
};
use sync_team::graphql::GraphPageInfo;
use sync_team::http::{Authorization, Encoding, Method, Param, Query};
use sync_team::model::{FieldName, TeamPrivacy, TeamRole, Value};

fn team(id: Option<u64>) -> Team {
    Team {
        id,
        name: "lang".to_string(),
        description: "The language team".to_string(),
        privacy: TeamPrivacy::Closed,
        slug: "lang".to_string(),
    }
}

fn read() -> GitHubApiRead {
    GitHubApiRead::from_client(HttpClient::new("t0ken".to_string()))
}

#[test]
fn node_ids_are_base64_of_the_kind_and_the_id() {
    assert_eq!(user_node_id(1), "MDQ6VXNlcjE=");
    assert_eq!(user_node_id(583231), "MDQ6VXNlcjU4MzIzMQ==");
    assert_eq!(team_node_id(42), "MDQ6VGVhbTQy");
}

#[test]
fn names_of_roles_and_privacy() {
    assert_eq!(TeamRole::Member.to_string(), "member");
    assert_eq!(TeamRole::Maintainer.to_string(), "maintainer");
    assert_eq!(TeamPrivacy::Closed.to_string(), "closed");
    assert_eq!(TeamPrivacy::Secret.to_string(), "secret");
}

#[test]
fn from_client_keeps_the_client() {
    let reader = read();
    assert_eq!(reader.client.token, "t0ken");
}

#[test]
fn requests_carry_the_token_and_go_under_the_base() {
    let github = GitHub::new("t0ken".to_string(), false);
    let request = github.req(Method::Get, "orgs/rust-lang/teams");
    assert_eq!(request.url, "https://api.github.com/orgs/rust-lang/teams");
    assert_eq!(request.authorization, Authorization::Header("token t0ken".to_string()));
    assert_eq!(request.method, Method::Get);
    assert_eq!(request.body, vec![]);
    let absolute = github.req(Method::Get, "https://api.github.com/organizations/5/teams?page=2");
    assert_eq!(absolute.url, "https://api.github.com/organizations/5/teams?page=2");
    assert_eq!(github.team("rust-lang", "lang").url, "https://api.github.com/orgs/rust-lang/teams/lang");
}

#[test]
fn a_dry_run_creates_a_team_without_an_id() {
    let github = GitHub::new("t0ken".to_string(), true);
    assert_eq!(
        github.create_team("rust-lang", "lang", "The language team", TeamPrivacy::Closed),
        Creation::Simulated(team(None))
    );
    assert_eq!(
        github.edit_team(&team(Some(5)), FieldName::Description, &Value::Text("x".to_string())),
        None
    );
    assert_eq!(github.set_membership(&team(Some(5)), "alice", TeamRole::Member), None);
    assert_eq!(github.remove_membership(&team(Some(5)), "alice"), None);
}

#[test]
fn a_live_run_sends_the_writes() {
    let github = GitHub::new("t0ken".to_string(), false);
    let body = vec![
        ("name".to_string(), Param::Text("lang".to_string())),
        ("description".to_string(), Param::Text("The language team".to_string())),
        ("privacy".to_string(), Param::Text("closed".to_string())),
    ];
    match github.create_team("rust-lang", "lang", "The language team", TeamPrivacy::Closed) {
        Creation::Send(request) => {
            assert_eq!(request.method, Method::Post);
            assert_eq!(request.url, "https://api.github.com/orgs/rust-lang/teams");
            assert_eq!(request.encoding, Encoding::Json);
            assert_eq!(request.body, body);
        }
        other => panic!("unexpected {:?}", other),
    }
    let edit = github
        .edit_team(&team(Some(5)), FieldName::Description, &Value::Text("New words".to_string()))
        .unwrap();
    assert_eq!((edit.method, edit.url.as_str()), (Method::Patch, "https://api.github.com/teams/5"));
    assert_eq!(edit.body, vec![("description".to_string(), Param::Text("New words".to_string()))]);
    let privacy = github
        .edit_team(&team(Some(5)), FieldName::Privacy, &Value::Text("secret".to_string()))
        .unwrap();
    assert_eq!(privacy.body, vec![("privacy".to_string(), Param::Text("secret".to_string()))]);
    let set = github.set_membership(&team(Some(5)), "alice", TeamRole::Maintainer).unwrap();
    assert_eq!(
        (set.method, set.url.as_str()),
        (Method::Put, "https://api.github.com/teams/5/memberships/alice")
    );
    assert_eq!(set.body, vec![("role".to_string(), Param::Text("maintainer".to_string()))]);
    let remove = github.remove_membership(&team(Some(5)), "alice").unwrap();
    assert_eq!(
        (remove.method, remove.url.as_str()),
        (Method::Delete, "https://api.github.com/teams/5/memberships/alice")
    );
    assert_eq!(remove.encoding, Encoding::Empty);
}

#[test]
fn nothing_is_sent_about_a_team_that_a_dry_run_made_up() {
    let github = GitHub::new("t0ken".to_string(), false);
    assert_eq!(github.edit_team(&team(None), FieldName::Privacy, &Value::Flag(true)), None);
    assert_eq!(github.set_membership(&team(None), "alice", TeamRole::Member), None);
    assert_eq!(github.remove_membership(&team(None), "alice"), None);
    assert_eq!(github.team_memberships(&team(None)), None);
    assert_eq!(read().team_memberships(&team(None)), None);
    assert!(read().team_memberships(&team(Some(5))).unwrap().has_next_page());
}

#[test]
fn user_names_are_asked_for_a_hundred_at_a_time() {
    let ids: Vec<u64> = (1..=250).collect();
    let requests = read().usernames(&ids);
    assert_eq!(requests.len(), 3);
    for (k, request) in requests.iter().enumerate() {
        assert_eq!(request.method, Method::Post);
        assert_eq!(request.url, "https://api.github.com/graphql");
        assert_eq!(request.encoding, Encoding::Query(Query::Usernames));
        let expected: Vec<String> =
            ids[k * 100..(k * 100 + 100).min(250)].iter().map(|id| user_node_id(*id)).collect();
        assert_eq!(request.body, vec![("ids".to_string(), Param::Texts(expected))]);
    }
    assert_eq!(read().usernames(&vec![]).len(), 0);
    assert_eq!(read().usernames(&(1..=100).collect()).len(), 1);
    assert_eq!(read().usernames(&(1..=101).collect()).len(), 2);
    assert_eq!(GitHub::new("t0ken".to_string(), true).usernames(&ids), requests);
}

#[test]
fn responses_add_up() {
    let mut names: HashMap<u64, String> = HashMap::new();
    add_usernames(
        &mut names,
        &vec![
            Some(Username { database_id: 1, login: "alice".to_string() }),
            None,
            Some(Username { database_id: 2, login: "bob".to_string() }),
        ],
    );
    add_usernames(&mut names, &vec![Some(Username { database_id: 1, login: "alicia".to_string() })]);
    assert_eq!(names.len(), 2);
    assert_eq!(names[&1], "alicia");
    assert_eq!(names[&2], "bob");

    let mut owners: HashSet<u64> = HashSet::new();
    add_ids(&mut owners, &vec![1, 2, 3]);
    add_ids(&mut owners, &vec![3, 4]);
    assert_eq!(owners, [1, 2, 3, 4].into_iter().collect());

    let mut members: HashMap<u64, TeamMember> = HashMap::new();
    add_members(
        &mut members,
        vec![
            TeamMember { id: 1, username: "alice".to_string(), role: TeamRole::Member },
            TeamMember { id: 2, username: "bob".to_string(), role: TeamRole::Member },
            TeamMember { id: 1, username: "alice".to_string(), role: TeamRole::Maintainer },
        ],
    );
    assert_eq!(members.len(), 2);
    assert_eq!(members[&1].role, TeamRole::Maintainer);
}

#[test]
fn the_walks_start_at_the_listing() {
    let reader = read();
    assert_eq!(reader.org_owners("rust-lang").next, Some("orgs/rust-lang/members?role=admin".to_string()));
    assert_eq!(reader.org_members("rust-lang").next, Some("orgs/rust-lang/members".to_string()));
    assert_eq!(reader.org_teams("rust-lang").next, Some("orgs/rust-lang/teams".to_string()));
    assert_eq!(
        reader.org_app_installations::<u64>("rust-lang").next,
        Some("orgs/rust-lang/installations".to_string())
    );
    assert_eq!(
        reader.app_installation_repos::<u64>(77).next,
        Some("user/installations/77/repositories".to_string())
    );
    assert_eq!(
        reader.team_membership_invitations("rust-lang", "lang").next,
        Some("orgs/rust-lang/teams/lang/invitations".to_string())
    );
    assert_eq!(reader.repo_teams::<u64>("rust-lang", "rust").next, Some("repos/rust-lang/rust/teams".to_string()));
    assert_eq!(
        reader.repo_collaborators::<u64>("rust-lang", "rust").next,
        Some("repos/rust-lang/rust/collaborators?affiliation=direct".to_string())
    );
    assert_eq!(reader.repo("rust-lang", "rust").url, "https://api.github.com/repos/rust-lang/rust");
    assert_eq!(reader.team("rust-lang", "lang").url, "https://api.github.com/orgs/rust-lang/teams/lang");
    assert_eq!(
        GitHub::new("t0ken".to_string(), true).org_owners("rust-lang").next,
        Some("orgs/rust-lang/members?role=admin".to_string())
    );
}

#[test]
fn queries_carry_their_variables() {
    let walk = read().branch_protections::<u64>("rust-lang", "rust");
    assert!(walk.has_next_page());
    assert_eq!(walk.cursor(), None);
    let protections = branch_protections_query("t0ken", "rust-lang", "rust", None);
    assert_eq!(protections.encoding, Encoding::Query(Query::BranchProtections));
    assert_eq!(
        protections.body,
        vec![
            ("org".to_string(), Param::Text("rust-lang".to_string())),
            ("repo".to_string(), Param::Text("rust".to_string())),
            ("cursor".to_string(), Param::Missing),
        ]
    );
    let later = branch_protections_query("t0ken", "rust-lang", "rust", Some("c9".to_string()));
    assert_eq!(later.body[2], ("cursor".to_string(), Param::Text("c9".to_string())));
    let first = members_query("t0ken", 42, None);
    assert_eq!(first.encoding, Encoding::Query(Query::TeamMembers));
    assert_eq!(
        first.body,
        vec![
            ("team".to_string(), Param::Text("MDQ6VGVhbTQy".to_string())),
            ("cursor".to_string(), Param::Missing),
        ]
    );
    let second = members_query("t0ken", 42, Some("abc".to_string()));
    assert_eq!(second.body[1], ("cursor".to_string(), Param::Text("abc".to_string())));
}

#[test]
fn results_keyed_by_text() {
    let mut protections: Vec<(String, u64)> = Vec::new();
    add_keyed(
        &mut protections,
        vec![Some(("main".to_string(), 1)), None, Some(("stable".to_string(), 2))],
    );
    add_keyed(&mut protections, vec![Some(("main".to_string(), 3))]);
    assert_eq!(protections, vec![("main".to_string(), 3), ("stable".to_string(), 2)]);
    put_keyed(&mut protections, "beta".to_string(), 4);
    put_keyed(&mut protections, "stable".to_string(), 5);
    assert_eq!(
        protections,
        vec![("main".to_string(), 3), ("stable".to_string(), 5), ("beta".to_string(), 4)]
    );
}

#[test]
fn invitations_hold_every_name_once() {
    let mut invited: Vec<String> = Vec::new();
    add_texts(&mut invited, &vec!["alice".to_string(), "bob".to_string(), "alice".to_string()]);
    add_texts(&mut invited, &vec!["bob".to_string(), "carol".to_string()]);
    assert_eq!(invited, vec!["alice".to_string(), "bob".to_string(), "carol".to_string()]);
}

#[test]
fn branch_protections_past_the_first_page_are_asked_for() {
    let rules: Vec<(String, u64)> = (0..250u64).map(|n| (format!("release/{n}"), n)).collect();
    let mut walk = read().branch_protections::<u64>("rust-lang", "rust");
    let mut cursors = Vec::new();
    while walk.has_next_page() {
        cursors.push(walk.cursor());
        let from = walk.requests * 100;
        let to = (from + 100).min(rules.len());
        walk.page(Some((
            GraphPageInfo { end_cursor: Some(format!("c{to}")), has_next_page: to < rules.len() },
            rules[from..to].to_vec(),
        )));
    }
    assert_eq!(walk.requests, 3);
    assert_eq!(cursors, vec![None, Some("c100".to_string()), Some("c200".to_string())]);
    let mut result: Vec<(String, u64)> = Vec::new();
    add_keyed(&mut result, walk.items.into_iter().map(Some).collect());
    assert_eq!(result, rules);
}
