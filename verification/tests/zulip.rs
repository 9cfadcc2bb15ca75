use sync_team::http::{Authorization, Encoding, Method, Param};
use sync_team::zulip::{
    group_changes, missing, serialize_as_array, user_with_email, GroupChange, GroupDefinition,
    ZulipApi, ZulipError, ZulipUser, ZulipUserGroup,
};

fn api(dry_run: bool) -> ZulipApi {
    ZulipApi::new("bot@example.org".to_string(), "t0ken".to_string(), dry_run)
}

#[test]
fn numbers_as_a_json_array() {
    assert_eq!(serialize_as_array(&vec![]), "[]");
    assert_eq!(serialize_as_array(&vec![7]), "[7]");
    assert_eq!(serialize_as_array(&vec![1, 2, 3]), "[1,2,3]");
    assert_eq!(serialize_as_array(&vec![0, u64::MAX]), "[0,18446744073709551615]");
}

#[test]
fn a_dry_run_sends_nothing_to_zulip() {
    assert_eq!(api(true).create_user_group("T-lang", "The language team", &vec![1]), None);
    assert_eq!(api(true).update_user_group_members(5, &vec![1], &vec![]), None);
}

#[test]
fn creating_a_user_group() {
    let request = api(false).create_user_group("T-lang", "The language team", &vec![1, 2]).unwrap();
    assert_eq!(request.method, Method::Post);
    assert_eq!(request.url, "https://rust-lang.zulipchat.com/api/v1/user_groups/create");
    assert_eq!(
        request.authorization,
        Authorization::Basic { username: "bot@example.org".to_string(), password: "t0ken".to_string() }
    );
    assert_eq!(request.encoding, Encoding::Form);
    assert_eq!(
        request.body,
        vec![
            ("name".to_string(), Param::Text("T-lang".to_string())),
            ("description".to_string(), Param::Text("The language team".to_string())),
            ("members".to_string(), Param::Text("[1,2]".to_string())),
        ]
    );
}

#[test]
fn a_group_that_exists_is_no_error() {
    assert_eq!(ZulipApi::user_group_created(200, None), Ok(()));
    assert_eq!(
        ZulipApi::user_group_created(400, Some("User group 'T-lang' already exists.")),
        Ok(())
    );
    assert_eq!(
        ZulipApi::user_group_created(400, Some("Invalid user ID: 7")),
        Err(ZulipError::BadRequest)
    );
    assert_eq!(ZulipApi::user_group_created(400, None), Err(ZulipError::BadRequest));
    assert_eq!(ZulipApi::user_group_created(500, Some("already exists")), Err(ZulipError::Status(500)));
    assert_eq!(ZulipApi::user_group_created(401, None), Err(ZulipError::Status(401)));
}

#[test]
fn updating_the_members_of_a_group() {
    assert_eq!(api(false).update_user_group_members(5, &vec![], &vec![]), None);
    let request = api(false).update_user_group_members(5, &vec![1, 2], &vec![]).unwrap();
    assert_eq!(request.url, "https://rust-lang.zulipchat.com/api/v1/user_groups/5/members");
    assert_eq!(
        request.body,
        vec![
            ("add".to_string(), Param::Text("[1,2]".to_string())),
            ("delete".to_string(), Param::Text("[]".to_string())),
        ]
    );
    assert!(api(false).update_user_group_members(5, &vec![], &vec![3]).is_some());
    assert_eq!(ZulipApi::user_group_members_updated(200), Ok(()));
    assert_eq!(ZulipApi::user_group_members_updated(400), Ok(()));
    assert_eq!(ZulipApi::user_group_members_updated(403), Err(ZulipError::Status(403)));
}

#[test]
fn reading_requests() {
    let groups = api(false).get_user_groups();
    assert_eq!((groups.method, groups.url.as_str()), (Method::Get, "https://rust-lang.zulipchat.com/api/v1/user_groups"));
    assert_eq!(groups.encoding, Encoding::Empty);
    assert_eq!(api(true).get_users().url, "https://rust-lang.zulipchat.com/api/v1/users");
    let message = api(false).post_message("infra", "sync", "hello");
    assert_eq!(message.url, "https://rust-lang.zulipchat.com/api/v1/messages");
    assert_eq!(
        message.body,
        vec![
            ("type".to_string(), Param::Text("stream".to_string())),
            ("to".to_string(), Param::Text("infra".to_string())),
            ("topic".to_string(), Param::Text("sync".to_string())),
            ("content".to_string(), Param::Text("hello".to_string())),
        ]
    );
}

#[test]
fn changes_of_user_groups() {
    let desired = vec![
        GroupDefinition { name: "T-lang".to_string(), members: vec![1, 2, 3] },
        GroupDefinition { name: "T-new".to_string(), members: vec![7] },
        GroupDefinition { name: "T-same".to_string(), members: vec![5, 6] },
    ];
    let live = vec![
        ZulipUserGroup { id: 10, name: "T-same".to_string(), members: vec![6, 5] },
        ZulipUserGroup { id: 11, name: "T-lang".to_string(), members: vec![4, 1] },
        ZulipUserGroup { id: 12, name: "T-other".to_string(), members: vec![9] },
    ];
    assert_eq!(
        group_changes(&desired, &live),
        vec![
            GroupChange::Update { id: 11, add: vec![2, 3], remove: vec![4] },
            GroupChange::Create { name: "T-new".to_string(), members: vec![7] },
            GroupChange::Update { id: 10, add: vec![], remove: vec![] },
        ]
    );
    assert_eq!(group_changes(&vec![], &live), vec![]);
    assert_eq!(missing(&vec![1, 2, 3, 2], &vec![2]), vec![1, 3]);
}

#[test]
fn users_are_found_by_email() {
    let users = vec![
        ZulipUser { email: None, user_id: 1 },
        ZulipUser { email: Some("a@example.org".to_string()), user_id: 2 },
        ZulipUser { email: Some("a@example.org".to_string()), user_id: 3 },
    ];
    assert_eq!(user_with_email(&users, &"a@example.org".to_string()), Some(2));
    assert_eq!(user_with_email(&users, &"b@example.org".to_string()), None);
}
