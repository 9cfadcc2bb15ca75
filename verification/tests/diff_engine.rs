use sync_team::diff::{
    diff, diff_entity, diff_fields, has_unique_fields, has_unique_relations, is_well_formed,
    reconcile, Malformed,
};
use sync_team::model::{
    Action, Diff, Entity, Field, FieldName, Identity, Kind, Relation, Target, TeamRole, Value,
};
use sync_team::simulate::{apply_diff, apply_to_snapshot};

fn member(id: u64) -> Relation {
    Relation { related: id, role: TeamRole::Member }
}

fn team(name: &str, identity: Identity, description: &str, members: &[u64]) -> Entity {
    Entity {
        kind: Kind::Team,
        name: name.to_string(),
        identity,
        fields: vec![Field {
            name: FieldName::Description,
            value: Value::Text(description.to_string()),
        }],
        relations: members.iter().map(|id| member(*id)).collect(),
    }
}

fn role(name: &str, id: u64, color: u64, position: u64) -> Entity {
    Entity {
        kind: Kind::Role,
        name: name.to_string(),
        identity: Identity::Committed(id),
        fields: vec![
            Field { name: FieldName::Color, value: Value::Number(color) },
            Field { name: FieldName::Position, value: Value::Number(position) },
        ],
        relations: vec![],
    }
}

fn lang_target() -> Target {
    Target { kind: Kind::Team, name: "lang".to_string(), identity: Identity::Committed(77) }
}

#[test]
fn end_to_end_membership_example() {
    let desired = vec![team("lang", Identity::Pending(0), "The language team", &[1, 2, 3])];
    let live = vec![team("lang", Identity::Committed(77), "The language team", &[1, 4])];
    let result = diff(&desired, &live);
    assert_eq!(
        result.actions,
        vec![
            Action::AddRelation { target: lang_target(), related: 2, role: TeamRole::Member },
            Action::AddRelation { target: lang_target(), related: 3, role: TeamRole::Member },
            Action::RemoveRelation { target: lang_target(), related: 4 },
        ]
    );
}

#[test]
fn diff_is_pure() {
    let desired = vec![
        team("lang", Identity::Pending(0), "The language team", &[1, 2, 3]),
        team("infra", Identity::Pending(0), "Infrastructure", &[9]),
    ];
    let live = vec![team("lang", Identity::Committed(77), "Old words", &[1, 4])];
    let first = diff(&desired, &live);
    let second = diff(&desired, &live);
    assert_eq!(first, second);
    assert_eq!(first.canonical_bytes(), second.canonical_bytes());
    assert_eq!(first.to_string(), second.to_string());
}

#[test]
fn diff_after_apply_is_empty() {
    let desired = vec![
        team("lang", Identity::Pending(0), "The language team", &[1, 2, 3]),
        team("infra", Identity::Pending(0), "Infrastructure", &[9, 10]),
        role("mods", 0, 0xff0000, 3),
    ];
    let live = vec![
        team("lang", Identity::Committed(77), "Old words", &[1, 4]),
        role("mods", 5, 0x00ff00, 3),
        team("unmanaged", Identity::Committed(78), "Nobody asked", &[12]),
    ];
    let first = diff(&desired, &live);
    assert!(!first.actions.is_empty());
    let after = apply_diff(live, &first);
    let second = diff(&desired, &after);
    assert_eq!(second.actions, Vec::<Action>::new());
}

#[test]
fn diff_of_equal_snapshots_is_empty() {
    let desired = vec![team("lang", Identity::Pending(0), "The language team", &[1, 2, 3])];
    let live = vec![team("lang", Identity::Committed(77), "The language team", &[3, 2, 1])];
    assert_eq!(diff(&desired, &live).actions, Vec::<Action>::new());
}

#[test]
fn only_the_changed_field_is_edited() {
    let desired = vec![role("mods", 0, 0xff0000, 3)];
    let live = vec![role("mods", 5, 0x00ff00, 3)];
    let result = diff(&desired, &live);
    assert_eq!(
        result.actions,
        vec![Action::EditField {
            target: Target {
                kind: Kind::Role,
                name: "mods".to_string(),
                identity: Identity::Committed(5),
            },
            field: FieldName::Color,
            old: Some(Value::Number(0x00ff00)),
            new: Value::Number(0xff0000),
        }]
    );
}

#[test]
fn a_field_the_platform_lacks_is_edited_from_nothing() {
    let target = lang_target();
    let desired = vec![Field { name: FieldName::Privacy, value: Value::Flag(true) }];
    let live = vec![Field { name: FieldName::Description, value: Value::Text("x".to_string()) }];
    assert_eq!(
        diff_fields(&desired, &live, &target),
        vec![Action::EditField {
            target: lang_target(),
            field: FieldName::Privacy,
            old: None,
            new: Value::Flag(true),
        }]
    );
}

#[test]
fn a_missing_entity_is_created_with_its_relations() {
    let desired = team("infra", Identity::Pending(0), "Infrastructure", &[9, 10]);
    let pending =
        Target { kind: Kind::Team, name: "infra".to_string(), identity: Identity::Pending(4) };
    assert_eq!(
        diff_entity(&desired, 4, &vec![]),
        vec![
            Action::CreateEntity {
                target: pending.clone(),
                fields: vec![Field {
                    name: FieldName::Description,
                    value: Value::Text("Infrastructure".to_string()),
                }],
            },
            Action::AddRelation { target: pending.clone(), related: 9, role: TeamRole::Member },
            Action::AddRelation { target: pending, related: 10, role: TeamRole::Member },
        ]
    );
}

#[test]
fn creations_come_before_everything_else() {
    let desired = vec![
        team("lang", Identity::Pending(0), "The language team", &[1, 2]),
        team("infra", Identity::Pending(0), "Infrastructure", &[9]),
        team("docs", Identity::Pending(0), "Documentation", &[]),
    ];
    let live = vec![team("lang", Identity::Committed(77), "Old words", &[1])];
    let result = diff(&desired, &live);
    let kinds: Vec<bool> =
        result.actions.iter().map(|a| matches!(a, Action::CreateEntity { .. })).collect();
    assert_eq!(kinds, vec![true, true, false, false, false]);
    match &result.actions[0] {
        Action::CreateEntity { target, .. } => {
            assert_eq!(target.name, "infra");
            assert_eq!(target.identity, Identity::Pending(1));
        }
        other => panic!("unexpected action {:?}", other),
    }
    match &result.actions[1] {
        Action::CreateEntity { target, .. } => assert_eq!(target.identity, Identity::Pending(2)),
        other => panic!("unexpected action {:?}", other),
    }
}

#[test]
fn a_differing_role_is_set_again() {
    let desired = vec![Entity {
        kind: Kind::Team,
        name: "lang".to_string(),
        identity: Identity::Pending(0),
        fields: vec![],
        relations: vec![Relation { related: 1, role: TeamRole::Maintainer }],
    }];
    let live = vec![team("lang", Identity::Committed(77), "whatever", &[1])];
    assert_eq!(
        diff(&desired, &live).actions,
        vec![Action::AddRelation { target: lang_target(), related: 1, role: TeamRole::Maintainer }]
    );
}

#[test]
fn relations_of_descriptive_kinds_are_left_alone() {
    let desired = vec![Entity {
        kind: Kind::Organization,
        name: "rust-lang".to_string(),
        identity: Identity::Pending(0),
        fields: vec![],
        relations: vec![member(1)],
    }];
    let live = vec![Entity {
        kind: Kind::Organization,
        name: "rust-lang".to_string(),
        identity: Identity::Committed(5),
        fields: vec![],
        relations: vec![member(1), member(2)],
    }];
    assert_eq!(diff(&desired, &live).actions, Vec::<Action>::new());
}

#[test]
fn live_entities_that_are_not_desired_stay() {
    let live = vec![team("unmanaged", Identity::Committed(78), "Nobody asked", &[12])];
    assert_eq!(diff(&vec![], &live).actions, Vec::<Action>::new());
}

#[test]
fn ordering_keeps_the_order_within_each_group() {
    let t = |name: &str| Target {
        kind: Kind::Team,
        name: name.to_string(),
        identity: Identity::Pending(0),
    };
    let actions = vec![
        Action::RemoveRelation { target: t("a"), related: 1 },
        Action::CreateEntity { target: t("b"), fields: vec![] },
        Action::AddRelation { target: t("b"), related: 2, role: TeamRole::Member },
        Action::CreateEntity { target: t("c"), fields: vec![] },
    ];
    let ordered = Diff::ordered(actions);
    assert_eq!(
        ordered.actions,
        vec![
            Action::CreateEntity { target: t("b"), fields: vec![] },
            Action::CreateEntity { target: t("c"), fields: vec![] },
            Action::RemoveRelation { target: t("a"), related: 1 },
            Action::AddRelation { target: t("b"), related: 2, role: TeamRole::Member },
        ]
    );
}

#[test]
fn applying_an_action_twice_is_applying_it_once() {
    let actions = vec![
        Action::CreateEntity {
            target: Target {
                kind: Kind::Team,
                name: "infra".to_string(),
                identity: Identity::Pending(0),
            },
            fields: vec![Field { name: FieldName::Privacy, value: Value::Flag(false) }],
        },
        Action::EditField {
            target: lang_target(),
            field: FieldName::Description,
            old: None,
            new: Value::Text("new".to_string()),
        },
        Action::AddRelation { target: lang_target(), related: 8, role: TeamRole::Maintainer },
        Action::RemoveRelation { target: lang_target(), related: 1 },
    ];
    for action in &actions {
        let mut once = vec![team("lang", Identity::Committed(77), "old", &[1, 2])];
        apply_to_snapshot(&mut once, action);
        let mut twice = vec![team("lang", Identity::Committed(77), "old", &[1, 2])];
        apply_to_snapshot(&mut twice, action);
        apply_to_snapshot(&mut twice, action);
        assert_eq!(once, twice);
    }
}

#[test]
fn an_action_on_a_missing_entity_changes_nothing() {
    let mut snapshot = vec![team("lang", Identity::Committed(77), "old", &[1])];
    let ghost = Target { kind: Kind::Team, name: "nope".to_string(), identity: Identity::Pending(3) };
    apply_to_snapshot(
        &mut snapshot,
        &Action::AddRelation { target: ghost, related: 5, role: TeamRole::Member },
    );
    assert_eq!(snapshot, vec![team("lang", Identity::Committed(77), "old", &[1])]);
}

#[test]
fn the_text_of_a_diff_has_a_line_for_each_action() {
    let desired = vec![team("lang", Identity::Pending(0), "New words", &[1, 2])];
    let live = vec![team("lang", Identity::Committed(77), "Old words", &[1, 4])];
    assert_eq!(
        diff(&desired, &live).to_string(),
        "edit team lang: description Old words -> New words\n\
         add 2 to team lang as member\n\
         remove 4 from team lang\n"
    );
    let created = diff(&vec![role("mods", 0, 255, 3)], &vec![]);
    assert_eq!(created.to_string(), "create role mods color=255 position=3\n");
}

#[test]
fn a_desired_snapshot_that_says_something_twice_is_refused() {
    let twice = vec![
        team("lang", Identity::Pending(0), "a", &[1]),
        team("lang", Identity::Pending(0), "b", &[2]),
    ];
    assert!(!is_well_formed(&twice));
    assert_eq!(reconcile(&twice, &vec![]), Err(Malformed));

    let mut colors = role("mods", 0, 1, 3);
    colors.fields.push(Field { name: FieldName::Color, value: Value::Number(2) });
    assert!(!has_unique_fields(&colors.fields));
    assert_eq!(reconcile(&vec![colors], &vec![]), Err(Malformed));

    let members = team("lang", Identity::Pending(0), "a", &[1, 2, 1]);
    assert!(!has_unique_relations(&members.relations));
    assert_eq!(reconcile(&vec![members], &vec![]), Err(Malformed));

    let fine = vec![
        team("lang", Identity::Pending(0), "a", &[1, 2]),
        role("lang", 0, 1, 3),
        team("infra", Identity::Pending(0), "a", &[1, 2]),
    ];
    assert!(is_well_formed(&fine));
    assert_eq!(reconcile(&fine, &vec![]), Ok(diff(&fine, &vec![])));
    assert!(is_well_formed(&vec![]));
}

#[test]
fn without_a_clear_desire_the_diff_does_not_settle() {
    // The same field with two values: whatever the platform holds, one of
    // the two is not met.
    let mut colors = role("mods", 0, 1, 3);
    colors.fields.push(Field { name: FieldName::Color, value: Value::Number(2) });
    let desired = vec![colors];
    let live = vec![role("mods", 5, 1, 3)];
    let first = diff(&desired, &live);
    let after = apply_diff(live, &first);
    assert!(!diff(&desired, &after).actions.is_empty());
}
