use sync_team::discord::api::{
    Discord, DiscordUser, Guild, GuildMember, MemberWalk, PartialGuild, Role, MEMBERS_PER_PAGE,
};
use sync_team::discord::{
    find_role, find_role_by_id, parse_color, DiscordError, DiscordTeam, NewRole, RoleUpdate,
    SyncDiscord, Team, UserUpdate,
};
use sync_team::http::{Authorization, Encoding, Method, Param};
use sync_team::model::{Action, Field, FieldName, Identity, Kind, Target, TeamRole, Value};

fn role(id: &str, name: &str, color: u64, position: u64) -> Role {
    Role { id: id.to_string(), name: name.to_string(), color, position }
}

fn side(name: &str, members: &[u64], color: Option<&str>) -> DiscordTeam {
    DiscordTeam {
        name: name.to_string(),
        members: members.to_vec(),
        color: color.map(|c| c.to_string()),
    }
}

fn member(id: u64, roles: &[&str]) -> (u64, GuildMember) {
    (
        id,
        GuildMember {
            user: DiscordUser { id: id.to_string() },
            roles: roles.iter().map(|r| r.to_string()).collect(),
        },
    )
}

fn teams() -> Vec<Team> {
    vec![
        Team { name: "all".to_string(), discord: vec![side("everyone", &[1, 2, 3], None)] },
        Team {
            name: "lang".to_string(),
            discord: vec![side("lang", &[1, 2], Some("#e01e5a")), side("lang-ops", &[3], Some("#00ff00"))],
        },
        Team { name: "empty".to_string(), discord: vec![] },
        Team { name: "mods".to_string(), discord: vec![side("mods", &[2], Some("#0000ff"))] },
    ]
}

fn guild() -> Guild {
    Guild {
        id: "9000".to_string(),
        name: "The Rust Programming Language".to_string(),
        roles: vec![
            role("10", "lang", 0xe01e5a, 7),
            role("11", "mods", 0x0000fe, 4),
            role("12", "unrelated", 1, 9),
        ],
    }
}

fn role_target(name: &str, identity: Identity) -> Target {
    Target { kind: Kind::Role, name: name.to_string(), identity }
}

fn listed(id: u64, roles: &[&str]) -> GuildMember {
    member(id, roles).1
}

#[test]
fn every_member_of_the_guild_is_looked_at() {
    let sync = SyncDiscord::new(teams(), true);
    let mut walk = sync.get_users();
    assert_eq!(walk, MemberWalk { after: None, finished: false, requests: 0, users: vec![] });
    let full: Vec<GuildMember> = (1..=MEMBERS_PER_PAGE as u64).map(|id| listed(id, &["10"])).collect();
    assert_eq!(walk.page(full), Ok(()));
    assert!(!walk.finished);
    assert_eq!(walk.after, Some("1000".to_string()));
    assert_eq!(walk.page(vec![listed(1001, &[]), listed(1002, &["11"])]), Ok(()));
    assert!(walk.finished);
    assert_eq!(walk.after, Some("1002".to_string()));
    assert_eq!(walk.requests, 2);
    assert_eq!(walk.users.len(), 1002);
    assert_eq!(walk.users[0], member(1, &["10"]));
    assert_eq!(walk.users[1001], member(1002, &["11"]));

    let mut empty = MemberWalk::start();
    assert_eq!(empty.page(vec![]), Ok(()));
    assert!(empty.finished);
    assert_eq!((empty.after.clone(), empty.requests, empty.users.len()), (None, 1, 0));
}

#[test]
fn a_member_id_that_is_no_number_is_an_error() {
    let mut walk = MemberWalk::start();
    let odd = GuildMember { user: DiscordUser { id: "x1".to_string() }, roles: vec![] };
    assert_eq!(walk.page(vec![listed(1, &[]), odd]), Err(DiscordError::InvalidUserId));
    assert_eq!(walk, MemberWalk::start());
}

#[test]
fn a_member_who_is_not_listed_loses_the_role() {
    // User 4 holds the role of lang, is not among its members and in no team at all.
    let sync = SyncDiscord::new(
        vec![Team { name: "lang".to_string(), discord: vec![side("lang", &[1, 2, 3], None)] }],
        false,
    );
    let mut walk = sync.get_users();
    walk.page(vec![listed(1, &["10"]), listed(4, &["10"])]).unwrap();
    assert!(walk.finished);
    let diff = sync.run(&guild(), &walk.users).unwrap();
    assert_eq!(
        diff.actions,
        vec![Action::RemoveRelation {
            target: role_target("lang", Identity::Committed(10)),
            related: 4,
        }]
    );
    let request = Discord::new("secret".to_string()).write("9000", &diff.actions[0]).unwrap();
    assert_eq!(
        (request.method, request.url.as_str()),
        (Method::Delete, "https://discord.com/api/v8/guilds/9000/members/4/roles/10")
    );
}

#[test]
fn a_user_in_line_is_asked_nothing() {
    let sync = SyncDiscord::new(teams(), false);
    let roles = guild().roles;
    let (_, user) = member(1, &["11", "12"]);
    let updates = sync.get_user_updates(1, &user, &roles).unwrap();
    assert_eq!(updates, vec![UserUpdate::AddRole(10), UserUpdate::RemoveRole(11)]);
    let (_, after) = member(1, &["12", "10"]);
    assert_eq!(sync.get_user_updates(1, &after, &roles), Ok(vec![]));
}

#[test]
fn role_updates_of_a_guild() {
    let sync = SyncDiscord::new(teams(), true);
    let plan = sync.get_role_updates(&guild().roles).unwrap();
    assert_eq!(plan.min_managed_role_position, Some(4));
    assert_eq!(plan.role_updates.entries, vec![(11, vec![RoleUpdate::ChangeColor(0x0000ff)])]);
    assert_eq!(
        plan.new_roles,
        vec![
            NewRole { name: "everyone".to_string(), color: 0, members: vec![1, 2, 3] },
            NewRole { name: "lang-ops".to_string(), color: 0x00ff00, members: vec![3] },
        ]
    );
}

#[test]
fn user_updates_add_and_remove_roles() {
    let sync = SyncDiscord::new(teams(), true);
    let roles = guild().roles;
    // A member of lang without its role, holding the role of mods without being a member.
    let (_, user) = member(1, &["11", "12"]);
    assert_eq!(
        sync.get_user_updates(1, &user, &roles),
        Ok(vec![UserUpdate::AddRole(10), UserUpdate::RemoveRole(11)])
    );
    let (_, settled) = member(2, &["10", "11"]);
    assert_eq!(sync.get_user_updates(2, &settled, &roles), Ok(vec![]));
    let (_, stranger) = member(99, &[]);
    assert_eq!(sync.get_user_updates(99, &stranger, &roles), Ok(vec![]));
}

#[test]
fn a_bad_color_is_an_error() {
    for color in ["#zzz", "", "#", "#e01e5a "] {
        let sync = SyncDiscord::new(
            vec![Team { name: "lang".to_string(), discord: vec![side("lang", &[1], Some(color))] }],
            true,
        );
        assert_eq!(sync.get_role_updates(&guild().roles), Err(DiscordError::InvalidColor), "{:?}", color);
        assert_eq!(sync.get_role_updates(&vec![]), Err(DiscordError::InvalidColor), "{:?}", color);
    }
    assert_eq!(parse_color(&"#e01e5a".to_string()), Some(0xe01e5a));
    assert_eq!(parse_color(&"xff".to_string()), Some(0xff));
    assert_eq!(parse_color(&"".to_string()), None);
}

#[test]
fn a_role_id_that_is_no_number_is_an_error() {
    let sync = SyncDiscord::new(teams(), true);
    let roles = vec![role("ten", "lang", 1, 7)];
    assert_eq!(sync.get_role_updates(&roles), Err(DiscordError::InvalidRoleId));
    let (_, user) = member(1, &[]);
    assert_eq!(sync.get_user_updates(1, &user, &roles), Err(DiscordError::InvalidRoleId));
    // The id is not read where the color agrees.
    let same_color = vec![role("ten", "lang", 0xe01e5a, 7)];
    assert!(sync.get_role_updates(&same_color).is_ok());
}

#[test]
fn roles_are_found_by_name_and_by_number() {
    let roles = guild().roles;
    assert_eq!(find_role(&roles, &"mods".to_string()), Some(1));
    assert_eq!(find_role(&roles, &"nope".to_string()), None);
    assert_eq!(find_role_by_id(&roles, 12), Some(2));
    assert_eq!(find_role_by_id(&roles, 13), None);
}

#[test]
fn a_run_gives_the_actions_in_replay_order() {
    let sync = SyncDiscord::new(teams(), false);
    let users = vec![member(1, &["11", "12"]), member(2, &["10", "11"])];
    let diff = sync.run(&guild(), &users).unwrap();
    let everyone = role_target("everyone", Identity::Pending(0));
    let ops = role_target("lang-ops", Identity::Pending(1));
    assert_eq!(
        diff.actions,
        vec![
            Action::CreateEntity {
                target: everyone.clone(),
                fields: vec![Field { name: FieldName::Color, value: Value::Number(0) }],
            },
            Action::CreateEntity {
                target: ops.clone(),
                fields: vec![Field { name: FieldName::Color, value: Value::Number(0x00ff00) }],
            },
            Action::EditField {
                target: everyone.clone(),
                field: FieldName::Position,
                old: None,
                new: Value::Number(3),
            },
            Action::AddRelation { target: everyone.clone(), related: 1, role: TeamRole::Member },
            Action::AddRelation { target: everyone, related: 2, role: TeamRole::Member },
            Action::EditField {
                target: ops,
                field: FieldName::Position,
                old: None,
                new: Value::Number(3),
            },
            Action::AddRelation {
                target: role_target("lang", Identity::Committed(10)),
                related: 1,
                role: TeamRole::Member,
            },
            Action::RemoveRelation {
                target: role_target("mods", Identity::Committed(11)),
                related: 1,
            },
            Action::EditField {
                target: role_target("mods", Identity::Committed(11)),
                field: FieldName::Color,
                old: Some(Value::Number(0x0000fe)),
                new: Value::Number(0x0000ff),
            },
        ]
    );
}

#[test]
fn a_changed_color_is_the_only_edit_of_a_role() {
    let sync = SyncDiscord::new(
        vec![Team { name: "mods".to_string(), discord: vec![side("mods", &[], Some("#0000ff"))] }],
        false,
    );
    let diff = sync.run(&guild(), &vec![]).unwrap();
    assert_eq!(
        diff.actions,
        vec![Action::EditField {
            target: role_target("mods", Identity::Committed(11)),
            field: FieldName::Color,
            old: Some(Value::Number(0x0000fe)),
            new: Value::Number(0x0000ff),
        }]
    );
}

#[test]
fn a_new_role_asked_for_twice_is_created_once() {
    let sync = SyncDiscord::new(
        vec![Team {
            name: "x".to_string(),
            discord: vec![side("fresh", &[1], None), side("fresh", &[2], None)],
        }],
        false,
    );
    let guild = Guild { id: "1".to_string(), name: "g".to_string(), roles: vec![] };
    let diff = sync.run(&guild, &vec![member(1, &[]), member(2, &[])]).unwrap();
    let fresh = role_target("fresh", Identity::Pending(0));
    assert_eq!(
        diff.actions,
        vec![
            Action::CreateEntity {
                target: fresh.clone(),
                fields: vec![Field { name: FieldName::Color, value: Value::Number(0) }],
            },
            Action::AddRelation { target: fresh, related: 1, role: TeamRole::Member },
        ]
    );
}

#[test]
fn no_position_below_zero() {
    let sync = SyncDiscord::new(
        vec![Team {
            name: "x".to_string(),
            discord: vec![side("lang", &[], None), side("fresh", &[], None)],
        }],
        false,
    );
    let guild = Guild {
        id: "1".to_string(),
        name: "g".to_string(),
        roles: vec![role("10", "lang", 0, 0)],
    };
    assert_eq!(sync.run(&guild, &vec![]), Err(DiscordError::NoPositionBelow));
}

#[test]
fn the_error_of_the_roles_comes_before_that_of_a_user() {
    let sync = SyncDiscord::new(
        vec![Team {
            name: "x".to_string(),
            discord: vec![side("lang", &[1], None), side("bad", &[], Some("nope"))],
        }],
        false,
    );
    let guild = Guild {
        id: "1".to_string(),
        name: "g".to_string(),
        roles: vec![role("ten", "lang", 0, 3)],
    };
    assert_eq!(sync.run(&guild, &vec![member(1, &[])]), Err(DiscordError::InvalidColor));
    let only_users = SyncDiscord::new(
        vec![Team { name: "x".to_string(), discord: vec![side("lang", &[1], None)] }],
        false,
    );
    assert_eq!(only_users.run(&guild, &vec![member(1, &[])]), Err(DiscordError::InvalidRoleId));
}

#[test]
fn requests_to_discord() {
    let discord = Discord::new("secret".to_string());
    let request = discord.get_member(42, "9000");
    assert_eq!(request.method, Method::Get);
    assert_eq!(request.url, "https://discord.com/api/v8/guilds/9000/members/42");
    assert_eq!(request.authorization, Authorization::Header("Bot secret".to_string()));
    assert_eq!(request.encoding, Encoding::Empty);
    assert_eq!(discord.get_roles("9000").url, "https://discord.com/api/v8/guilds/9000/roles");
    assert_eq!(discord.guilds().url, "https://discord.com/api/v8/users/@me/guilds");
    assert_eq!(discord.req(Method::Get, "https://cdn.example/x").url, "https://cdn.example/x");

    let give = discord.update_user_roles("9000", 42, UserUpdate::AddRole(10));
    assert_eq!(
        (give.method, give.url.as_str()),
        (Method::Put, "https://discord.com/api/v8/guilds/9000/members/42/roles/10")
    );
    assert_eq!(give.body, vec![]);
    let take = discord.update_user_roles("9000", 42, UserUpdate::RemoveRole(10));
    assert_eq!(
        (take.method, take.url.as_str()),
        (Method::Delete, "https://discord.com/api/v8/guilds/9000/members/42/roles/10")
    );

    let color = discord.update_guild_role("9000", 11, RoleUpdate::ChangeColor(255));
    assert_eq!(
        (color.method, color.url.as_str()),
        (Method::Patch, "https://discord.com/api/v8/guilds/9000/roles/11")
    );
    assert_eq!(color.body, vec![("color".to_string(), Param::Number(255))]);
    let position = discord.update_guild_role("9000", 11, RoleUpdate::ChangePosition(3));
    assert_eq!(position.url, "https://discord.com/api/v8/guilds/9000/roles");
    assert_eq!(position.encoding, Encoding::JsonList);
    assert_eq!(
        position.body,
        vec![
            ("id".to_string(), Param::Text("11".to_string())),
            ("position".to_string(), Param::Number(3)),
        ]
    );

    let create = discord.create_guild_role("9000", "mods", 7);
    assert_eq!((create.method, create.url.as_str()), (Method::Post, "https://discord.com/api/v8/guilds/9000/roles"));
    assert_eq!(
        create.body,
        vec![
            ("name".to_string(), Param::Text("mods".to_string())),
            ("color".to_string(), Param::Number(7)),
        ]
    );

    assert_eq!(
        discord.list_members("9000", None).url,
        "https://discord.com/api/v8/guilds/9000/members?limit=1000"
    );
    assert_eq!(
        discord.list_members("9000", Some("77")).url,
        "https://discord.com/api/v8/guilds/9000/members?limit=1000&after=77"
    );
}

#[test]
fn the_guild_is_picked_by_name() {
    let discord = Discord::new("secret".to_string());
    let guilds = vec![
        PartialGuild { name: "Other".to_string(), id: "1".to_string() },
        PartialGuild { name: "The Rust Programming Language".to_string(), id: "2".to_string() },
        PartialGuild { name: "The Rust Programming Language".to_string(), id: "3".to_string() },
    ];
    let name = "The Rust Programming Language".to_string();
    assert_eq!(discord.get_guild(&guilds, &name).unwrap().url, "https://discord.com/api/v8/guilds/2");
    assert_eq!(discord.get_guild(&guilds, &"Missing".to_string()), None);
}

fn carry_out(held: &[&str], updates: &[UserUpdate]) -> Vec<String> {
    let mut held: Vec<String> = held.iter().map(|r| r.to_string()).collect();
    for update in updates {
        match update {
            UserUpdate::AddRole(id) => held.push(id.to_string()),
            UserUpdate::RemoveRole(id) => held.retain(|r| *r != id.to_string()),
        }
    }
    held
}

#[test]
fn the_plan_for_a_user_is_empty_once_it_was_carried_out() {
    let sync = SyncDiscord::new(teams(), false);
    let roles = guild().roles;
    for (id, held) in [(1, vec!["11", "12"]), (2, vec![]), (3, vec!["10", "11"]), (99, vec!["10"])] {
        let (_, user) = member(id, &held);
        let updates = sync.get_user_updates(id, &user, &roles).unwrap();
        let after = GuildMember {
            user: DiscordUser { id: id.to_string() },
            roles: carry_out(&held, &updates),
        };
        assert_eq!(sync.get_user_updates(id, &after, &roles), Ok(vec![]));
    }
}

#[test]
fn teams_that_name_one_role_and_disagree_on_a_user_never_settle() {
    let sync = SyncDiscord::new(
        vec![
            Team { name: "lang".to_string(), discord: vec![side("lang", &[1], None)] },
            Team { name: "lang-emeritus".to_string(), discord: vec![side("lang", &[], None)] },
        ],
        false,
    );
    let roles = guild().roles;
    let (_, without) = member(1, &[]);
    assert_eq!(sync.get_user_updates(1, &without, &roles), Ok(vec![UserUpdate::AddRole(10)]));
    let (_, with) = member(1, &["10"]);
    assert_eq!(sync.get_user_updates(1, &with, &roles), Ok(vec![UserUpdate::RemoveRole(10)]));
}
