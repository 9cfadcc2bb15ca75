//! Carrying out the actions of a diff on a snapshot: what the platform holds
//! afterwards, without a write being made.

use crate::diff::{
    entity_keyed, field_named, find_entity, find_field, find_relation, relation_to,
};
use crate::model::{
    clone_fields, Action, Diff, Entity, EntityView, Field, FieldName, FieldView, Kind, Relation,
    TeamRole, Value,
};
use crate::seqs::{
    first_where, lemma_first_where, lemma_first_where_push, lemma_first_where_update,
};
use crate::state::{
    apply_action, apply_upto, entity_state, fields_map, key_of, relations_map, state_of,
};
use vstd::prelude::*;

verus! {

/// Sets a field in a list of fields.
pub fn set_field(fields: &mut Vec<Field>, name: FieldName, value: Value)
    ensures
        fields_map(final(fields).deep_view()) == fields_map(old(fields).deep_view()).insert(
            name,
            value.deep_view(),
        ),
{
    let ghost before = fields.deep_view();
    let ghost new = FieldView { name, value: value.deep_view() };
    match find_field(fields, name) {
        Some(k) => {
            assert(before[k as int] == fields[k as int].deep_view());
            fields.remove(k);
            fields.insert(k, Field { name, value });
            let ghost after = fields.deep_view();
            assert(after =~= before.update(k as int, new));
            proof {
                lemma_first_where(before, field_named(name));
            }
            assert(before[k as int].name == name);
            assert forall|other: FieldName| #[trigger]
                fields_map(after).contains_key(other) == fields_map(before).insert(
                    name,
                    new.value,
                ).contains_key(other) && (fields_map(after).contains_key(other) ==> fields_map(
                after,
            )[other] == fields_map(before).insert(name, new.value)[other]) by {
                lemma_first_where(before, field_named(other));
                lemma_first_where_update(before, field_named(other), k as int, new);
            }
            assert(fields_map(after) =~= fields_map(before).insert(name, new.value));
        },
        None => {
            fields.push(Field { name, value });
            let ghost after = fields.deep_view();
            assert(after =~= before.push(new));
            assert forall|other: FieldName| #[trigger]
                fields_map(after).contains_key(other) == fields_map(before).insert(
                    name,
                    new.value,
                ).contains_key(other) && (fields_map(after).contains_key(other) ==> fields_map(
                after,
            )[other] == fields_map(before).insert(name, new.value)[other]) by {
                lemma_first_where(before, field_named(other));
                lemma_first_where_push(before, field_named(other), new);
            }
            assert(fields_map(after) =~= fields_map(before).insert(name, new.value));
        },
    }
}

/// Sets the role of an account in a list of relations.
pub fn set_relation(relations: &mut Vec<Relation>, related: u64, role: TeamRole)
    ensures
        relations_map(final(relations)@) == relations_map(old(relations)@).insert(related, role),
{
    let ghost before = relations@;
    let new = Relation { related, role };
    match find_relation(relations, related) {
        Some(k) => {
            relations.remove(k);
            relations.insert(k, new);
            let ghost after = relations@;
            assert(after =~= before.update(k as int, new));
            proof {
                lemma_first_where(before, relation_to(related));
            }
            assert(before[k as int].related == related);
            assert forall|other: u64| #[trigger]
                relations_map(after).contains_key(other) == relations_map(before).insert(
                    related,
                    role,
                ).contains_key(other) && (relations_map(after).contains_key(other)
                    ==> relations_map(after)[other] == relations_map(before).insert(
                    related,
                    role,
                )[other]) by {
                lemma_first_where(before, relation_to(other));
                lemma_first_where_update(before, relation_to(other), k as int, new);
            }
            assert(relations_map(after) =~= relations_map(before).insert(related, role));
        },
        None => {
            relations.push(new);
            let ghost after = relations@;
            assert(after =~= before.push(new));
            assert forall|other: u64| #[trigger]
                relations_map(after).contains_key(other) == relations_map(before).insert(
                    related,
                    role,
                ).contains_key(other) && (relations_map(after).contains_key(other)
                    ==> relations_map(after)[other] == relations_map(before).insert(
                    related,
                    role,
                )[other]) by {
                lemma_first_where(before, relation_to(other));
                lemma_first_where_push(before, relation_to(other), new);
            }
            assert(relations_map(after) =~= relations_map(before).insert(related, role));
        },
    }
}

/// Removes an account from a list of relations, wherever it stands in it.
pub fn unset_relation(relations: &mut Vec<Relation>, related: u64)
    ensures
        relations_map(final(relations)@) == relations_map(old(relations)@).remove(related),
{
    let ghost before = relations@;
    let mut kept: Vec<Relation> = Vec::new();
    let mut i: usize = 0;
    while i < relations.len()
        invariant
            i <= relations.len(),
            relations@ == before,
            forall|j: int| 0 <= j < kept@.len() ==> (#[trigger] kept@[j]).related != related,
            forall|other: u64|
                other != related ==> first_where(kept@, relation_to(other)) is Some
                    == first_where(before.take(i as int), relation_to(other)) is Some,
            forall|other: u64|
                other != related && first_where(kept@, relation_to(other)) is Some ==> kept@[(
                #[trigger] first_where(kept@, relation_to(other)))->Some_0].role == before.take(
                    i as int,
                )[first_where(before.take(i as int), relation_to(other))->Some_0].role,
        decreases relations.len() - i,
    {
        let relation = relations[i];
        let ghost seen = before.take(i as int);
        let ghost kept_before = kept@;
        assert(before.take(i + 1) =~= seen.push(relation));
        if relation.related != related {
            kept.push(relation);
        }
        assert forall|other: u64| other != related implies first_where(
            kept@,
            relation_to(other),
        ) is Some == first_where(before.take(i + 1), relation_to(other)) is Some && (first_where(
            kept@,
            relation_to(other),
        ) is Some ==> kept@[first_where(kept@, relation_to(other))->Some_0].role == before.take(
            i + 1,
        )[first_where(before.take(i + 1), relation_to(other))->Some_0].role) by {
            lemma_first_where_push(seen, relation_to(other), relation);
            lemma_first_where(seen, relation_to(other));
            lemma_first_where(kept_before, relation_to(other));
            if relation.related != related {
                lemma_first_where_push(kept_before, relation_to(other), relation);
            }
        }
        i += 1;
    }
    assert(before.take(relations.len() as int) =~= before);
    *relations = kept;
    proof {
        let after = relations@;
        assert forall|other: u64| #[trigger]
            relations_map(after).contains_key(other) == relations_map(before).remove(
                related,
            ).contains_key(other) && (relations_map(after).contains_key(other) ==> relations_map(
            after,
        )[other] == relations_map(before).remove(related)[other]) by {
            if other == related {
                lemma_first_where(after, relation_to(other));
            }
        }
        assert(relations_map(after) =~= relations_map(before).remove(related));
    }
}

/// Replaces the entity at `k` by one of the same kind and name.
proof fn lemma_entity_replaced(snapshot: Seq<EntityView>, k: int, entity: EntityView)
    requires
        0 <= k < snapshot.len(),
        first_where(snapshot, entity_keyed(entity.kind, entity.name)) == Some(k),
        snapshot[k].kind == entity.kind,
        snapshot[k].name == entity.name,
    ensures
        state_of(snapshot.update(k, entity)) == state_of(snapshot).insert(
            (entity.kind, entity.name),
            entity_state(entity),
        ),
{
    let after = snapshot.update(k, entity);
    let key = (entity.kind, entity.name);
    assert forall|other: (Kind, Seq<char>)| #[trigger]
        state_of(after).contains_key(other) == state_of(snapshot).insert(
            key,
            entity_state(entity),
        ).contains_key(other) && (state_of(after).contains_key(other) ==> state_of(after)[other]
            == state_of(snapshot).insert(key, entity_state(entity))[other]) by {
        lemma_first_where(snapshot, entity_keyed(other.0, other.1));
        lemma_first_where_update(snapshot, entity_keyed(other.0, other.1), k, entity);
    }
    assert(state_of(after) =~= state_of(snapshot).insert(key, entity_state(entity)));
}

/// Adds an entity whose kind and name the snapshot does not have.
proof fn lemma_entity_added(snapshot: Seq<EntityView>, entity: EntityView)
    requires
        first_where(snapshot, entity_keyed(entity.kind, entity.name)) is None,
    ensures
        state_of(snapshot.push(entity)) == state_of(snapshot).insert(
            (entity.kind, entity.name),
            entity_state(entity),
        ),
{
    let after = snapshot.push(entity);
    let key = (entity.kind, entity.name);
    assert forall|other: (Kind, Seq<char>)| #[trigger]
        state_of(after).contains_key(other) == state_of(snapshot).insert(
            key,
            entity_state(entity),
        ).contains_key(other) && (state_of(after).contains_key(other) ==> state_of(after)[other]
            == state_of(snapshot).insert(key, entity_state(entity))[other]) by {
        lemma_first_where(snapshot, entity_keyed(other.0, other.1));
        lemma_first_where_push(snapshot, entity_keyed(other.0, other.1), entity);
    }
    assert(state_of(after) =~= state_of(snapshot).insert(key, entity_state(entity)));
}

/// Carries out one action on a snapshot.
pub fn apply_to_snapshot(snapshot: &mut Vec<Entity>, action: &Action)
    ensures
        state_of(final(snapshot).deep_view()) == apply_action(
            state_of(old(snapshot).deep_view()),
            action.deep_view(),
        ),
{
    let ghost before = snapshot.deep_view();
    let ghost act = action.deep_view();
    let ghost key = key_of(act.target());
    let found = match action {
        Action::CreateEntity { target, .. } => find_entity(snapshot, target.kind, &target.name),
        Action::EditField { target, .. } => find_entity(snapshot, target.kind, &target.name),
        Action::AddRelation { target, .. } => find_entity(snapshot, target.kind, &target.name),
        Action::RemoveRelation { target, .. } => find_entity(snapshot, target.kind, &target.name),
    };
    proof {
        lemma_first_where(before, entity_keyed(key.0, key.1));
    }
    match found {
        None => {
            match action {
                Action::CreateEntity { target, fields } => {
                    let entity = Entity {
                        kind: target.kind,
                        name: target.name.clone(),
                        identity: target.identity,
                        fields: clone_fields(fields),
                        relations: Vec::new(),
                    };
                    let ghost made = entity.deep_view();
                    snapshot.push(entity);
                    proof {
                        assert(snapshot.deep_view() =~= before.push(made));
                        lemma_entity_added(before, made);
                        assert(relations_map(made.relations) =~= Map::<u64, TeamRole>::empty());
                    }
                },
                _ => {},
            }
        },
        Some(k) => {
            assert(before[k as int] == snapshot[k as int].deep_view());
            match action {
                Action::CreateEntity { .. } => {},
                Action::EditField { field, new, .. } => {
                    let entity = snapshot.remove(k);
                    let mut fields = entity.fields;
                    set_field(&mut fields, *field, new.clone());
                    let changed = Entity {
                        kind: entity.kind,
                        name: entity.name,
                        identity: entity.identity,
                        fields,
                        relations: entity.relations,
                    };
                    let ghost made = changed.deep_view();
                    snapshot.insert(k, changed);
                    proof {
                        assert(snapshot.deep_view() =~= before.update(k as int, made));
                        lemma_entity_replaced(before, k as int, made);
                    }
                },
                Action::AddRelation { related, role, .. } => {
                    let entity = snapshot.remove(k);
                    let mut relations = entity.relations;
                    set_relation(&mut relations, *related, *role);
                    let changed = Entity {
                        kind: entity.kind,
                        name: entity.name,
                        identity: entity.identity,
                        fields: entity.fields,
                        relations,
                    };
                    let ghost made = changed.deep_view();
                    snapshot.insert(k, changed);
                    proof {
                        assert(snapshot.deep_view() =~= before.update(k as int, made));
                        lemma_entity_replaced(before, k as int, made);
                    }
                },
                Action::RemoveRelation { related, .. } => {
                    let entity = snapshot.remove(k);
                    let mut relations = entity.relations;
                    unset_relation(&mut relations, *related);
                    let changed = Entity {
                        kind: entity.kind,
                        name: entity.name,
                        identity: entity.identity,
                        fields: entity.fields,
                        relations,
                    };
                    let ghost made = changed.deep_view();
                    snapshot.insert(k, changed);
                    proof {
                        assert(snapshot.deep_view() =~= before.update(k as int, made));
                        lemma_entity_replaced(before, k as int, made);
                    }
                },
            }
        },
    }
}

/// Carries out the actions of a diff on a snapshot, in order. The result
/// shows what the platform holds once the diff was applied to what the
/// snapshot shows.
pub fn apply_diff(snapshot: Vec<Entity>, diff: &Diff) -> (after: Vec<Entity>)
    ensures
        state_of(after.deep_view()) == crate::state::apply_all(
            state_of(snapshot.deep_view()),
            diff.deep_view(),
        ),
{
    let ghost start = state_of(snapshot.deep_view());
    let ghost actions = diff.deep_view();
    let mut snapshot = snapshot;
    let mut i: usize = 0;
    while i < diff.actions.len()
        invariant
            i <= diff.actions.len(),
            actions == diff.deep_view(),
            state_of(snapshot.deep_view()) == apply_upto(start, actions, i as nat),
        decreases diff.actions.len() - i,
    {
        assert(actions[i as int] == diff.actions[i as int].deep_view());
        apply_to_snapshot(&mut snapshot, &diff.actions[i]);
        i += 1;
    }
    snapshot
}

} // verus!
