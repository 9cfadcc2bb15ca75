//! The laws of the diff engine: what holds of every desired and every live
//! snapshot.

use crate::diff::{
    adds_upto, all_actions_upto, diff_actions, edits_upto, entity_actions, entity_keyed,
    field_edit, field_named, live_target, pending_target, prunes_relations, relation_add,
    relation_removal, relation_to, removals_upto,
};
use crate::model::{
    changes_upto, creates_first, creations_upto, ActionView, EntityView, FieldName, FieldView,
    Kind, Relation, TargetView,
};
use crate::seqs::{first_where, lemma_first_where, lemma_first_where_is};
use crate::state::{
    all_about, apply_action, apply_all, apply_upto, entity_state, fields_map, key_of,
    lemma_apply_joined, lemma_frame, relations_map, same_at, state_of, EntityState,
};
use vstd::prelude::*;

verus! {

/// Whether no field name comes twice.
pub open spec fn unique_fields(fields: Seq<FieldView>) -> bool {
    forall|i: int, j: int|
        0 <= i < j < fields.len() ==> (#[trigger] fields[i]).name != (#[trigger] fields[j]).name
}

/// Whether no account comes twice.
pub open spec fn unique_relations(relations: Seq<Relation>) -> bool {
    forall|i: int, j: int|
        0 <= i < j < relations.len() ==> (#[trigger] relations[i]).related
            != (#[trigger] relations[j]).related
}

/// The kind and name of an entity.
pub open spec fn entity_key(entity: EntityView) -> (Kind, Seq<char>) {
    (entity.kind, entity.name)
}

/// Whether a desired snapshot names every entity once, and within each entity
/// every field and every related account once.
pub open spec fn well_formed(desired: Seq<EntityView>) -> bool {
    &&& forall|i: int, j: int|
        0 <= i < j < desired.len() ==> entity_key(#[trigger] desired[i]) != entity_key(
            #[trigger] desired[j],
        )
    &&& forall|i: int|
        0 <= i < desired.len() ==> unique_fields((#[trigger] desired[i]).fields)
            && unique_relations(desired[i].relations)
}

/// Whether the platform holds a desired entity as it is desired: the entity
/// exists, each desired field has its value, each desired relation its role,
/// and, for the kinds that prune, there is no relation that is not desired.
pub open spec fn satisfied(desired: EntityView, state: Map<(Kind, Seq<char>), EntityState>) -> bool {
    let key = entity_key(desired);
    &&& state.contains_key(key)
    &&& forall|j: int|
        0 <= j < desired.fields.len() ==> state[key].fields.contains_key(
            (#[trigger] desired.fields[j]).name,
        ) && state[key].fields[desired.fields[j].name] == desired.fields[j].value
    &&& forall|j: int|
        0 <= j < desired.relations.len() ==> state[key].relations.contains_key(
            (#[trigger] desired.relations[j]).related,
        ) && state[key].relations[desired.relations[j].related] == desired.relations[j].role
    &&& prunes_relations(desired.kind) ==> forall|id: u64|
        #[trigger] state[key].relations.contains_key(id) ==> first_where(
            desired.relations,
            relation_to(id),
        ) is Some
}

proof fn lemma_apply_none(state: Map<(Kind, Seq<char>), EntityState>)
    ensures
        apply_all(state, Seq::<ActionView>::empty()) == state,
{
}

proof fn lemma_apply_one(state: Map<(Kind, Seq<char>), EntityState>, action: ActionView)
    ensures
        apply_all(state, seq![action]) == apply_action(state, action),
{
    reveal_with_fuel(apply_upto, 2);
    assert(seq![action][0] == action);
}

/// A field that is found by its name in a list without doubles is found where
/// it stands.
proof fn lemma_field_found(fields: Seq<FieldView>, j: int)
    requires
        unique_fields(fields),
        0 <= j < fields.len(),
    ensures
        first_where(fields, field_named(fields[j].name)) == Some(j),
{
    let wanted = field_named(fields[j].name);
    assert(wanted(fields[j]));
    assert forall|i: int| 0 <= i < j implies !wanted(#[trigger] fields[i]) by {}
    lemma_first_where_is(fields, wanted, j);
}

proof fn lemma_relation_found(relations: Seq<Relation>, j: int)
    requires
        unique_relations(relations),
        0 <= j < relations.len(),
    ensures
        first_where(relations, relation_to(relations[j].related)) == Some(j),
{
    let wanted = relation_to(relations[j].related);
    assert(wanted(relations[j]));
    assert forall|i: int| 0 <= i < j implies !wanted(#[trigger] relations[i]) by {}
    lemma_first_where_is(relations, wanted, j);
}

/// What the edits do: each desired field looked at so far has its value, every
/// other field is as the live entity has it, and nothing else changes.
proof fn lemma_edits(
    state: Map<(Kind, Seq<char>), EntityState>,
    desired: Seq<FieldView>,
    n: nat,
    live: Seq<FieldView>,
    target: TargetView,
)
    requires
        n <= desired.len(),
        unique_fields(desired),
        state.contains_key(key_of(target)),
        state[key_of(target)].fields == fields_map(live),
    ensures
        ({
            let key = key_of(target);
            let after = apply_all(state, edits_upto(desired, n, live, target));
            &&& after.contains_key(key)
            &&& after[key].relations == state[key].relations
            &&& forall|j: int|
                0 <= j < n ==> after[key].fields.contains_key((#[trigger] desired[j]).name)
                    && after[key].fields[desired[j].name] == desired[j].value
            &&& forall|name: FieldName|
                (forall|j: int| 0 <= j < n ==> (#[trigger] desired[j]).name != name) ==> (
                #[trigger] after[key].fields.contains_key(name)) == fields_map(live).contains_key(
                    name,
                ) && (after[key].fields.contains_key(name) ==> after[key].fields[name]
                    == fields_map(live)[name])
            &&& all_about(edits_upto(desired, n, live, target), key)
        }),
    decreases n,
{
    let key = key_of(target);
    if n == 0 {
        lemma_apply_none(state);
    } else {
        let before = edits_upto(desired, (n - 1) as nat, live, target);
        let step = field_edit(desired[n - 1], live, target);
        lemma_edits(state, desired, (n - 1) as nat, live, target);
        lemma_apply_joined(state, before, step);
        let mid = apply_all(state, before);
        let after = apply_all(mid, step);
        let name = desired[n - 1].name;
        assert(forall|j: int| 0 <= j < n - 1 ==> (#[trigger] desired[j]).name != name);
        assert(mid[key].fields.contains_key(name) == fields_map(live).contains_key(name));
        if step.len() == 0 {
            lemma_apply_none(mid);
        } else {
            assert(step =~= seq![step[0]]);
            lemma_apply_one(mid, step[0]);
        }
        assert forall|other: FieldName|
            (forall|j: int| 0 <= j < n ==> (#[trigger] desired[j]).name != other) implies (
        #[trigger] after[key].fields.contains_key(other)) == fields_map(live).contains_key(other)
            && (after[key].fields.contains_key(other) ==> after[key].fields[other] == fields_map(
            live,
        )[other]) by {
            assert(desired[n - 1].name != other);
            assert(forall|j: int| 0 <= j < n - 1 ==> (#[trigger] desired[j]).name != other);
            assert(mid[key].fields.contains_key(other) == fields_map(live).contains_key(other));
        }
        assert forall|j: int| 0 <= j < n implies after[key].fields.contains_key(
            (#[trigger] desired[j]).name,
        ) && after[key].fields[desired[j].name] == desired[j].value by {
            if j < n - 1 {
                assert(desired[j].name != desired[n - 1].name);
                assert(mid[key].fields.contains_key(desired[j].name));
            }
        }
        assert(all_about(before + step, key));
    }
}

/// What setting the relations does: each desired relation looked at so far is
/// held with its role, every other account is as the live entity has it, and
/// nothing else changes.
proof fn lemma_adds(
    state: Map<(Kind, Seq<char>), EntityState>,
    desired: Seq<Relation>,
    n: nat,
    live: Seq<Relation>,
    target: TargetView,
)
    requires
        n <= desired.len(),
        unique_relations(desired),
        state.contains_key(key_of(target)),
        state[key_of(target)].relations == relations_map(live),
    ensures
        ({
            let key = key_of(target);
            let after = apply_all(state, adds_upto(desired, n, live, target));
            &&& after.contains_key(key)
            &&& after[key].fields == state[key].fields
            &&& forall|j: int|
                0 <= j < n ==> after[key].relations.contains_key((#[trigger] desired[j]).related)
                    && after[key].relations[desired[j].related] == desired[j].role
            &&& forall|id: u64|
                (forall|j: int| 0 <= j < n ==> (#[trigger] desired[j]).related != id) ==> (
                #[trigger] after[key].relations.contains_key(id)) == relations_map(
                    live,
                ).contains_key(id) && (after[key].relations.contains_key(id)
                    ==> after[key].relations[id] == relations_map(live)[id])
            &&& all_about(adds_upto(desired, n, live, target), key)
        }),
    decreases n,
{
    let key = key_of(target);
    if n == 0 {
        lemma_apply_none(state);
    } else {
        let before = adds_upto(desired, (n - 1) as nat, live, target);
        let step = relation_add(desired[n - 1], live, target);
        lemma_adds(state, desired, (n - 1) as nat, live, target);
        lemma_apply_joined(state, before, step);
        let mid = apply_all(state, before);
        let after = apply_all(mid, step);
        let id = desired[n - 1].related;
        assert(forall|j: int| 0 <= j < n - 1 ==> (#[trigger] desired[j]).related != id);
        assert(mid[key].relations.contains_key(id) == relations_map(live).contains_key(id));
        if step.len() == 0 {
            lemma_apply_none(mid);
        } else {
            assert(step =~= seq![step[0]]);
            lemma_apply_one(mid, step[0]);
        }
        assert forall|other: u64|
            (forall|j: int| 0 <= j < n ==> (#[trigger] desired[j]).related != other) implies (
        #[trigger] after[key].relations.contains_key(other)) == relations_map(live).contains_key(
            other,
        ) && (after[key].relations.contains_key(other) ==> after[key].relations[other]
            == relations_map(live)[other]) by {
            assert(desired[n - 1].related != other);
            assert(forall|j: int| 0 <= j < n - 1 ==> (#[trigger] desired[j]).related != other);
            assert(mid[key].relations.contains_key(other) == relations_map(live).contains_key(
                other,
            ));
        }
        assert forall|j: int| 0 <= j < n implies after[key].relations.contains_key(
            (#[trigger] desired[j]).related,
        ) && after[key].relations[desired[j].related] == desired[j].role by {
            if j < n - 1 {
                assert(desired[j].related != desired[n - 1].related);
                assert(mid[key].relations.contains_key(desired[j].related));
            }
        }
        assert(all_about(before + step, key));
    }
}

/// What the removals do: each live relation looked at so far that is not
/// desired is gone, the desired ones are as they were, nothing is added, and
/// nothing else changes.
proof fn lemma_removals(
    state: Map<(Kind, Seq<char>), EntityState>,
    live: Seq<Relation>,
    n: nat,
    desired: Seq<Relation>,
    target: TargetView,
)
    requires
        n <= live.len(),
        state.contains_key(key_of(target)),
    ensures
        ({
            let key = key_of(target);
            let after = apply_all(state, removals_upto(live, n, desired, target));
            &&& after.contains_key(key)
            &&& after[key].fields == state[key].fields
            &&& forall|id: u64| #[trigger]
                after[key].relations.contains_key(id) ==> state[key].relations.contains_key(id)
                    && after[key].relations[id] == state[key].relations[id]
            &&& forall|id: u64|
                first_where(desired, relation_to(id)) is Some ==> (
                #[trigger] after[key].relations.contains_key(id))
                    == state[key].relations.contains_key(id)
            &&& forall|j: int|
                0 <= j < n && first_where(desired, relation_to((#[trigger] live[j]).related))
                    is None ==> !after[key].relations.contains_key(live[j].related)
            &&& all_about(removals_upto(live, n, desired, target), key)
        }),
    decreases n,
{
    let key = key_of(target);
    if n == 0 {
        lemma_apply_none(state);
    } else {
        let before = removals_upto(live, (n - 1) as nat, desired, target);
        let step = relation_removal(live[n - 1], desired, target);
        lemma_removals(state, live, (n - 1) as nat, desired, target);
        lemma_apply_joined(state, before, step);
        let mid = apply_all(state, before);
        let after = apply_all(mid, step);
        if step.len() == 0 {
            lemma_apply_none(mid);
        } else {
            assert(step =~= seq![step[0]]);
            lemma_apply_one(mid, step[0]);
        }
        assert forall|id: u64| #[trigger]
            after[key].relations.contains_key(id) implies state[key].relations.contains_key(id)
            && after[key].relations[id] == state[key].relations[id] by {
            assert(mid[key].relations.contains_key(id));
        }
        assert forall|id: u64| first_where(desired, relation_to(id)) is Some implies (
        #[trigger] after[key].relations.contains_key(id)) == state[key].relations.contains_key(
            id,
        ) by {
            assert(mid[key].relations.contains_key(id) == state[key].relations.contains_key(id));
        }
        assert forall|j: int|
            0 <= j < n && first_where(desired, relation_to((#[trigger] live[j]).related))
                is None implies !after[key].relations.contains_key(live[j].related) by {
            if j < n - 1 {
                assert(!mid[key].relations.contains_key(live[j].related));
                if after[key].relations.contains_key(live[j].related) {
                    assert(mid[key].relations.contains_key(live[j].related));
                }
            }
        }
        assert(all_about(before + step, key));
    }
}

/// The entity that a state holds under a key that the snapshot has is the
/// first entity of the snapshot with that key.
proof fn lemma_state_of(snapshot: Seq<EntityView>, key: (Kind, Seq<char>))
    ensures
        match first_where(snapshot, entity_keyed(key.0, key.1)) {
            Some(k) => 0 <= k < snapshot.len() && state_of(snapshot).contains_key(key)
                && state_of(snapshot)[key] == entity_state(snapshot[k]) && entity_key(snapshot[k])
                == key,
            None => !state_of(snapshot).contains_key(key),
        },
{
    lemma_first_where(snapshot, entity_keyed(key.0, key.1));
}

/// An account that a list of relations holds is found in it.
proof fn lemma_relations_map(relations: Seq<Relation>, id: u64)
    ensures
        relations_map(relations).contains_key(id) <==> exists|j: int|
            0 <= j < relations.len() && (#[trigger] relations[j]).related == id,
{
    let wanted = relation_to(id);
    lemma_first_where(relations, wanted);
    if relations_map(relations).contains_key(id) {
        let k = first_where(relations, wanted)->Some_0;
        assert(relations[k].related == id);
    }
    if exists|j: int| 0 <= j < relations.len() && (#[trigger] relations[j]).related == id {
        let j = choose|j: int| 0 <= j < relations.len() && (#[trigger] relations[j]).related == id;
        assert(wanted(relations[j]));
    }
}

/// What the actions for one desired entity do. Carried out on a platform that
/// holds of this entity what the live snapshot says, they leave the entity as
/// it is desired, and they are about this entity alone.
proof fn lemma_block(
    state: Map<(Kind, Seq<char>), EntityState>,
    desired: EntityView,
    index: int,
    live: Seq<EntityView>,
)
    requires
        unique_fields(desired.fields),
        unique_relations(desired.relations),
        same_at(state, state_of(live), entity_key(desired)),
    ensures
        satisfied(desired, apply_all(state, entity_actions(desired, index, live))),
        all_about(entity_actions(desired, index, live), entity_key(desired)),
{
    let key = entity_key(desired);
    let actions = entity_actions(desired, index, live);
    lemma_state_of(live, key);
    match first_where(live, entity_keyed(desired.kind, desired.name)) {
        None => {
            let target = pending_target(desired, index);
            let create = ActionView::CreateEntity { target, fields: desired.fields };
            let adds = adds_upto(
                desired.relations,
                desired.relations.len(),
                Seq::empty(),
                target,
            );
            assert(actions == seq![create] + adds);
            lemma_apply_joined(state, seq![create], adds);
            lemma_apply_one(state, create);
            let made = apply_action(state, create);
            assert(made[key].relations =~= relations_map(Seq::<Relation>::empty()));
            lemma_adds(made, desired.relations, desired.relations.len(), Seq::empty(), target);
            let after = apply_all(made, adds);
            assert forall|j: int| 0 <= j < desired.fields.len() implies after[key].fields.contains_key(
                (#[trigger] desired.fields[j]).name,
            ) && after[key].fields[desired.fields[j].name] == desired.fields[j].value by {
                lemma_field_found(desired.fields, j);
            }
            assert forall|id: u64| #[trigger]
                after[key].relations.contains_key(id) implies first_where(
                desired.relations,
                relation_to(id),
            ) is Some by {
                if forall|j: int|
                    0 <= j < desired.relations.len() ==> (#[trigger] desired.relations[j]).related
                        != id {
                    assert(!relations_map(Seq::<Relation>::empty()).contains_key(id));
                    assert(false);
                } else {
                    let j = choose|j: int|
                        0 <= j < desired.relations.len() && (#[trigger] desired.relations[j]).related
                            == id;
                    lemma_relation_found(desired.relations, j);
                }
            }
            assert(all_about(seq![create] + adds, key));
        },
        Some(k) => {
            let target = live_target(desired, live[k]);
            let edits = edits_upto(desired.fields, desired.fields.len(), live[k].fields, target);
            let adds = adds_upto(
                desired.relations,
                desired.relations.len(),
                live[k].relations,
                target,
            );
            let removals = if prunes_relations(desired.kind) {
                removals_upto(
                    live[k].relations,
                    live[k].relations.len(),
                    desired.relations,
                    target,
                )
            } else {
                Seq::empty()
            };
            assert(actions == edits + adds + removals);
            lemma_apply_joined(state, edits + adds, removals);
            lemma_apply_joined(state, edits, adds);
            lemma_edits(state, desired.fields, desired.fields.len(), live[k].fields, target);
            let edited = apply_all(state, edits);
            lemma_adds(
                edited,
                desired.relations,
                desired.relations.len(),
                live[k].relations,
                target,
            );
            let added = apply_all(edited, adds);
            let after = apply_all(added, removals);
            if prunes_relations(desired.kind) {
                lemma_removals(
                    added,
                    live[k].relations,
                    live[k].relations.len(),
                    desired.relations,
                    target,
                );
                assert forall|j: int|
                    0 <= j < desired.relations.len() implies after[key].relations.contains_key(
                    (#[trigger] desired.relations[j]).related,
                ) && after[key].relations[desired.relations[j].related]
                    == desired.relations[j].role by {
                    lemma_relation_found(desired.relations, j);
                    let id = desired.relations[j].related;
                    assert(added[key].relations.contains_key(id));
                    assert(first_where(desired.relations, relation_to(id)) is Some);
                    assert(after[key].relations.contains_key(id) == added[key].relations.contains_key(
                        id,
                    ));
                }
                assert forall|id: u64| #[trigger]
                    after[key].relations.contains_key(id) implies first_where(
                    desired.relations,
                    relation_to(id),
                ) is Some by {
                    if first_where(desired.relations, relation_to(id)) is None {
                        lemma_first_where(desired.relations, relation_to(id));
                        assert forall|j: int| 0 <= j < desired.relations.len() implies (
                        #[trigger] desired.relations[j]).related != id by {
                            assert(!relation_to(id)(desired.relations[j]));
                        }
                        assert(added[key].relations.contains_key(id));
                        assert(relations_map(live[k].relations).contains_key(id));
                        lemma_relations_map(live[k].relations, id);
                        let m = choose|m: int|
                            0 <= m < live[k].relations.len() && (#[trigger] live[k].relations[m]).related
                                == id;
                        assert(!after[key].relations.contains_key(live[k].relations[m].related));
                        assert(false);
                    }
                }
            } else {
                lemma_apply_none(added);
            }
            assert(all_about(edits + adds + removals, key));
        },
    }
}

/// Where the platform holds a desired entity as it is desired, the diff has
/// no action for it.
proof fn lemma_satisfied_is_quiet(desired: EntityView, index: int, live: Seq<EntityView>)
    requires
        satisfied(desired, state_of(live)),
    ensures
        entity_actions(desired, index, live) == Seq::<ActionView>::empty(),
{
    let key = entity_key(desired);
    lemma_state_of(live, key);
    let k = first_where(live, entity_keyed(desired.kind, desired.name))->Some_0;
    let target = live_target(desired, live[k]);
    lemma_no_edits(desired.fields, desired.fields.len(), live[k].fields, target);
    lemma_no_adds(desired.relations, desired.relations.len(), live[k].relations, target);
    if prunes_relations(desired.kind) {
        lemma_no_removals(
            live[k].relations,
            live[k].relations.len(),
            desired.relations,
            target,
        );
    }
    assert(entity_actions(desired, index, live) =~= Seq::<ActionView>::empty());
}

proof fn lemma_no_edits(desired: Seq<FieldView>, n: nat, live: Seq<FieldView>, target: TargetView)
    requires
        n <= desired.len(),
        forall|j: int|
            0 <= j < desired.len() ==> fields_map(live).contains_key((#[trigger] desired[j]).name)
                && fields_map(live)[desired[j].name] == desired[j].value,
    ensures
        edits_upto(desired, n, live, target) == Seq::<ActionView>::empty(),
    decreases n,
{
    if n > 0 {
        lemma_no_edits(desired, (n - 1) as nat, live, target);
        assert(fields_map(live).contains_key(desired[n - 1].name));
        assert(field_edit(desired[n - 1], live, target) =~= Seq::<ActionView>::empty());
    }
}

proof fn lemma_no_adds(desired: Seq<Relation>, n: nat, live: Seq<Relation>, target: TargetView)
    requires
        n <= desired.len(),
        forall|j: int|
            0 <= j < desired.len() ==> relations_map(live).contains_key(
                (#[trigger] desired[j]).related,
            ) && relations_map(live)[desired[j].related] == desired[j].role,
    ensures
        adds_upto(desired, n, live, target) == Seq::<ActionView>::empty(),
    decreases n,
{
    if n > 0 {
        lemma_no_adds(desired, (n - 1) as nat, live, target);
        assert(relations_map(live).contains_key(desired[n - 1].related));
        assert(relation_add(desired[n - 1], live, target) =~= Seq::<ActionView>::empty());
    }
}

proof fn lemma_no_removals(live: Seq<Relation>, n: nat, desired: Seq<Relation>, target: TargetView)
    requires
        n <= live.len(),
        forall|id: u64| #[trigger]
            relations_map(live).contains_key(id) ==> first_where(desired, relation_to(id))
                is Some,
    ensures
        removals_upto(live, n, desired, target) == Seq::<ActionView>::empty(),
    decreases n,
{
    if n > 0 {
        lemma_no_removals(live, (n - 1) as nat, desired, target);
        lemma_relations_map(live, live[n - 1].related);
        assert(relations_map(live).contains_key(live[n - 1].related));
        assert(relation_removal(live[n - 1], desired, target) =~= Seq::<ActionView>::empty());
    }
}

proof fn lemma_edits_create_nothing(desired: Seq<FieldView>, n: nat, live: Seq<FieldView>, target: TargetView)
    requires
        n <= desired.len(),
    ensures
        forall|p: int|
            0 <= p < edits_upto(desired, n, live, target).len() ==> !((#[trigger] edits_upto(
                desired,
                n,
                live,
                target,
            )[p]) is CreateEntity),
    decreases n,
{
    if n > 0 {
        lemma_edits_create_nothing(desired, (n - 1) as nat, live, target);
    }
}

proof fn lemma_adds_create_nothing(desired: Seq<Relation>, n: nat, live: Seq<Relation>, target: TargetView)
    requires
        n <= desired.len(),
    ensures
        forall|p: int|
            0 <= p < adds_upto(desired, n, live, target).len() ==> !((#[trigger] adds_upto(
                desired,
                n,
                live,
                target,
            )[p]) is CreateEntity),
    decreases n,
{
    if n > 0 {
        lemma_adds_create_nothing(desired, (n - 1) as nat, live, target);
    }
}

proof fn lemma_removals_create_nothing(live: Seq<Relation>, n: nat, desired: Seq<Relation>, target: TargetView)
    requires
        n <= live.len(),
    ensures
        forall|p: int|
            0 <= p < removals_upto(live, n, desired, target).len() ==> !((#[trigger] removals_upto(
                live,
                n,
                desired,
                target,
            )[p]) is CreateEntity),
    decreases n,
{
    if n > 0 {
        lemma_removals_create_nothing(live, (n - 1) as nat, desired, target);
    }
}

/// Among the actions for one entity only the first can be a creation.
proof fn lemma_block_shape(desired: EntityView, index: int, live: Seq<EntityView>)
    ensures
        forall|p: int|
            0 < p < entity_actions(desired, index, live).len() ==> !((#[trigger] entity_actions(
                desired,
                index,
                live,
            )[p]) is CreateEntity),
{
    match first_where(live, entity_keyed(desired.kind, desired.name)) {
        None => {
            let target = pending_target(desired, index);
            lemma_adds_create_nothing(
                desired.relations,
                desired.relations.len(),
                Seq::empty(),
                target,
            );
        },
        Some(k) => {
            let target = live_target(desired, live[k]);
            lemma_edits_create_nothing(
                desired.fields,
                desired.fields.len(),
                live[k].fields,
                target,
            );
            lemma_adds_create_nothing(
                desired.relations,
                desired.relations.len(),
                live[k].relations,
                target,
            );
            lemma_removals_create_nothing(
                live[k].relations,
                live[k].relations.len(),
                desired.relations,
                target,
            );
        },
    }
}

/// Whether every action is about one of the first `n` desired entities.
pub open spec fn keys_among(actions: Seq<ActionView>, desired: Seq<EntityView>, n: nat) -> bool {
    forall|m: int|
        0 <= m < actions.len() ==> exists|i: int|
            0 <= i < n && key_of((#[trigger] actions[m]).target()) == entity_key(
                #[trigger] desired[i],
            )
}

/// Whether no creation is about an entity that an earlier action is about.
pub open spec fn creations_fresh(actions: Seq<ActionView>) -> bool {
    forall|j: int, m: int|
        0 <= j < m < actions.len() && (#[trigger] actions[m]) is CreateEntity ==> key_of(
            (#[trigger] actions[j]).target(),
        ) != key_of(actions[m].target())
}

/// What the actions for the first `n` desired entities do, entity after
/// entity: each of these entities is left as it is desired, and every other
/// desired entity as the live snapshot has it.
proof fn lemma_all_blocks(desired: Seq<EntityView>, n: nat, live: Seq<EntityView>)
    requires
        n <= desired.len(),
        well_formed(desired),
    ensures
        ({
            let actions = all_actions_upto(desired, n, live);
            let after = apply_all(state_of(live), actions);
            &&& forall|i: int| 0 <= i < n ==> satisfied(#[trigger] desired[i], after)
            &&& forall|i: int|
                n <= i < desired.len() ==> same_at(
                    after,
                    state_of(live),
                    entity_key(#[trigger] desired[i]),
                )
            &&& keys_among(actions, desired, n)
            &&& creations_fresh(actions)
        }),
    decreases n,
{
    if n == 0 {
        lemma_apply_none(state_of(live));
    } else {
        let before = all_actions_upto(desired, (n - 1) as nat, live);
        let block = entity_actions(desired[n - 1], n - 1, live);
        let actions = before + block;
        lemma_all_blocks(desired, (n - 1) as nat, live);
        lemma_apply_joined(state_of(live), before, block);
        let mid = apply_all(state_of(live), before);
        let after = apply_all(mid, block);
        let key = entity_key(desired[n - 1]);
        lemma_block(mid, desired[n - 1], n - 1, live);
        lemma_block_shape(desired[n - 1], n - 1, live);
        assert forall|i: int| 0 <= i < n implies satisfied(#[trigger] desired[i], after) by {
            if i < n - 1 {
                lemma_frame(mid, block, block.len(), key, entity_key(desired[i]));
            }
        }
        assert forall|i: int| n <= i < desired.len() implies same_at(
            after,
            state_of(live),
            entity_key(#[trigger] desired[i]),
        ) by {
            lemma_frame(mid, block, block.len(), key, entity_key(desired[i]));
        }
        assert forall|m: int| 0 <= m < actions.len() implies exists|i: int|
            0 <= i < n && key_of((#[trigger] actions[m]).target()) == entity_key(
                #[trigger] desired[i],
            ) by {
            if m < before.len() {
                assert(actions[m] == before[m]);
                let i = choose|i: int|
                    0 <= i < n - 1 && key_of(before[m].target()) == entity_key(
                        #[trigger] desired[i],
                    );
                assert(0 <= i < n && key_of(actions[m].target()) == entity_key(desired[i]));
            } else {
                assert(actions[m] == block[m - before.len()]);
                assert(key_of(actions[m].target()) == entity_key(desired[n - 1]));
            }
        }
        assert forall|j: int, m: int|
            0 <= j < m < actions.len() && (#[trigger] actions[m]) is CreateEntity implies key_of(
            (#[trigger] actions[j]).target(),
        ) != key_of(actions[m].target()) by {
            if m < before.len() {
                assert(actions[m] == before[m]);
                assert(actions[j] == before[j]);
            } else {
                let p = m - before.len();
                assert(actions[m] == block[p]);
                assert(p == 0);
                assert(actions[j] == before[j]);
                let i = choose|i: int|
                    0 <= i < n - 1 && key_of(before[j].target()) == entity_key(
                        #[trigger] desired[i],
                    );
                assert(entity_key(desired[i]) != entity_key(desired[n - 1]));
                assert(key_of(block[p].target()) == key);
            }
        }
    }
}

/// Actions about different entities can change places.
proof fn lemma_commute(state: Map<(Kind, Seq<char>), EntityState>, first: ActionView, second: ActionView)
    requires
        key_of(first.target()) != key_of(second.target()),
    ensures
        apply_action(apply_action(state, first), second) == apply_action(
            apply_action(state, second),
            first,
        ),
{
    assert(apply_action(apply_action(state, first), second) =~= apply_action(
        apply_action(state, second),
        first,
    ));
}

proof fn lemma_push_through(
    state: Map<(Kind, Seq<char>), EntityState>,
    action: ActionView,
    others: Seq<ActionView>,
    n: nat,
)
    requires
        n <= others.len(),
        forall|i: int|
            0 <= i < others.len() ==> key_of((#[trigger] others[i]).target()) != key_of(
                action.target(),
            ),
    ensures
        apply_upto(apply_action(state, action), others, n) == apply_action(
            apply_upto(state, others, n),
            action,
        ),
    decreases n,
{
    if n > 0 {
        lemma_push_through(state, action, others, (n - 1) as nat);
        lemma_commute(apply_upto(state, others, (n - 1) as nat), action, others[n - 1]);
    }
}

proof fn lemma_apply_push(
    state: Map<(Kind, Seq<char>), EntityState>,
    actions: Seq<ActionView>,
    action: ActionView,
)
    ensures
        apply_all(state, actions.push(action)) == apply_action(apply_all(state, actions), action),
{
    crate::state::lemma_apply_prefix(state, actions.push(action), actions, actions.len());
}

proof fn lemma_changes_come_from(actions: Seq<ActionView>, n: nat)
    requires
        n <= actions.len(),
    ensures
        forall|p: int|
            0 <= p < changes_upto(actions, n).len() ==> exists|j: int|
                0 <= j < n && (#[trigger] changes_upto(actions, n)[p]) == actions[j],
    decreases n,
{
    if n > 0 {
        lemma_changes_come_from(actions, (n - 1) as nat);
        let before = changes_upto(actions, (n - 1) as nat);
        let now = changes_upto(actions, n);
        assert forall|p: int| 0 <= p < now.len() implies exists|j: int|
            0 <= j < n && (#[trigger] now[p]) == actions[j] by {
            if p < before.len() {
                assert(now[p] == before[p]);
                let j = choose|j: int| 0 <= j < n - 1 && before[p] == actions[j];
                assert(0 <= j < n && now[p] == actions[j]);
            } else {
                assert(now[p] == actions[n - 1]);
            }
        }
    }
}

/// Moving the creations to the front changes nothing about what the actions
/// do, as long as no creation is about an entity that an earlier action is
/// about.
proof fn lemma_reorder(state: Map<(Kind, Seq<char>), EntityState>, actions: Seq<ActionView>, n: nat)
    requires
        n <= actions.len(),
        creations_fresh(actions),
    ensures
        apply_all(state, creations_upto(actions, n) + changes_upto(actions, n)) == apply_upto(
            state,
            actions,
            n,
        ),
    decreases n,
{
    if n == 0 {
        assert(creations_upto(actions, 0) + changes_upto(actions, 0) =~= Seq::<ActionView>::empty());
        lemma_apply_none(state);
    } else {
        let creations = creations_upto(actions, (n - 1) as nat);
        let changes = changes_upto(actions, (n - 1) as nat);
        let action = actions[n - 1];
        lemma_reorder(state, actions, (n - 1) as nat);
        if action is CreateEntity {
            lemma_apply_joined(state, creations.push(action), changes);
            lemma_apply_push(state, creations, action);
            let made = apply_all(state, creations);
            lemma_changes_come_from(actions, (n - 1) as nat);
            assert forall|i: int| 0 <= i < changes.len() implies key_of(
                (#[trigger] changes[i]).target(),
            ) != key_of(action.target()) by {
                let j = choose|j: int| 0 <= j < n - 1 && changes[i] == actions[j];
                assert(key_of(actions[j].target()) != key_of(actions[n - 1].target()));
            }
            lemma_push_through(made, action, changes, changes.len());
            lemma_apply_joined(state, creations, changes);
        } else {
            assert(creations + changes.push(action) =~= (creations + changes).push(action));
            lemma_apply_push(state, creations + changes, action);
        }
    }
}

proof fn lemma_all_quiet(desired: Seq<EntityView>, n: nat, live: Seq<EntityView>)
    requires
        n <= desired.len(),
        forall|i: int| 0 <= i < desired.len() ==> satisfied(#[trigger] desired[i], state_of(live)),
    ensures
        all_actions_upto(desired, n, live) == Seq::<ActionView>::empty(),
    decreases n,
{
    if n > 0 {
        lemma_all_quiet(desired, (n - 1) as nat, live);
        lemma_satisfied_is_quiet(desired[n - 1], n - 1, live);
    }
}

/// Idempotence. Where `after` is a snapshot of the platform once the diff of
/// `desired` and `live` was applied to what `live` shows, the diff of
/// `desired` and `after` has no action. The desired snapshot must name every
/// entity once, and within each entity every field and every related account
/// once; the order in which `after` lists what the platform holds is free.
pub proof fn lemma_diff_idempotent(
    desired: Seq<EntityView>,
    live: Seq<EntityView>,
    after: Seq<EntityView>,
)
    requires
        well_formed(desired),
        state_of(after) == apply_all(state_of(live), diff_actions(desired, live)),
    ensures
        diff_actions(desired, after) == Seq::<ActionView>::empty(),
{
    let actions = all_actions_upto(desired, desired.len(), live);
    lemma_all_blocks(desired, desired.len(), live);
    lemma_reorder(state_of(live), actions, actions.len());
    lemma_all_quiet(desired, desired.len(), after);
    assert(creates_first(Seq::<ActionView>::empty()) =~= Seq::<ActionView>::empty());
}

/// A platform that holds every desired entity as it is desired needs no
/// action.
pub proof fn lemma_in_line_is_empty(desired: Seq<EntityView>, live: Seq<EntityView>)
    requires
        forall|i: int| 0 <= i < desired.len() ==> satisfied(#[trigger] desired[i], state_of(live)),
    ensures
        diff_actions(desired, live) == Seq::<ActionView>::empty(),
{
    lemma_all_quiet(desired, desired.len(), live);
    assert(creates_first(Seq::<ActionView>::empty()) =~= Seq::<ActionView>::empty());
}

/// Purity. The diff is a function of the two snapshots: the same snapshots
/// give the same actions in the same order.
pub proof fn lemma_diff_pure(
    desired: Seq<EntityView>,
    live: Seq<EntityView>,
    desired_again: Seq<EntityView>,
    live_again: Seq<EntityView>,
)
    requires
        desired == desired_again,
        live == live_again,
    ensures
        diff_actions(desired, live) == diff_actions(desired_again, live_again),
{
}

/// Field isolation. Where the desired fields are the live fields but for the
/// value of the one at `k`, the edits are exactly one: that of this field,
/// from the live value to the desired one.
pub proof fn lemma_field_isolation(
    desired: Seq<FieldView>,
    live: Seq<FieldView>,
    target: TargetView,
    k: int,
)
    requires
        unique_fields(live),
        desired.len() == live.len(),
        0 <= k < desired.len(),
        forall|j: int| 0 <= j < desired.len() && j != k ==> desired[j] == live[j],
        desired[k].name == live[k].name,
        desired[k].value != live[k].value,
    ensures
        edits_upto(desired, desired.len(), live, target) == seq![
            ActionView::EditField {
                target,
                field: desired[k].name,
                old: Some(live[k].value),
                new: desired[k].value,
            },
        ],
{
    lemma_isolated_upto(desired, live, target, k, desired.len());
}

proof fn lemma_isolated_upto(
    desired: Seq<FieldView>,
    live: Seq<FieldView>,
    target: TargetView,
    k: int,
    n: nat,
)
    requires
        unique_fields(live),
        desired.len() == live.len(),
        0 <= k < desired.len(),
        n <= desired.len(),
        forall|j: int| 0 <= j < desired.len() && j != k ==> desired[j] == live[j],
        desired[k].name == live[k].name,
        desired[k].value != live[k].value,
    ensures
        edits_upto(desired, n, live, target) == (if n <= k {
            Seq::<ActionView>::empty()
        } else {
            seq![
                ActionView::EditField {
                    target,
                    field: desired[k].name,
                    old: Some(live[k].value),
                    new: desired[k].value,
                },
            ]
        }),
    decreases n,
{
    if n > 0 {
        lemma_isolated_upto(desired, live, target, k, (n - 1) as nat);
        lemma_field_found(live, n - 1);
        let before = edits_upto(desired, (n - 1) as nat, live, target);
        let step = field_edit(desired[n - 1], live, target);
        assert(desired[n - 1].name == live[n - 1].name);
        if n - 1 == k {
            assert(before + step =~= step);
        } else {
            assert(step =~= Seq::<ActionView>::empty());
            assert(before + step =~= before);
        }
    }
}

/// Field isolation for an entity. Where a desired entity is the live one but
/// for the value of one field, the actions for it are exactly one: the edit of
/// this field. No other field and no relation is touched.
pub proof fn lemma_entity_field_isolation(
    desired: EntityView,
    index: int,
    live: Seq<EntityView>,
    at: int,
    k: int,
)
    requires
        first_where(live, entity_keyed(desired.kind, desired.name)) == Some(at),
        unique_fields(live[at].fields),
        unique_relations(live[at].relations),
        desired.relations == live[at].relations,
        desired.fields.len() == live[at].fields.len(),
        0 <= k < desired.fields.len(),
        forall|j: int|
            0 <= j < desired.fields.len() && j != k ==> desired.fields[j] == live[at].fields[j],
        desired.fields[k].name == live[at].fields[k].name,
        desired.fields[k].value != live[at].fields[k].value,
    ensures
        entity_actions(desired, index, live) == seq![
            ActionView::EditField {
                target: live_target(desired, live[at]),
                field: desired.fields[k].name,
                old: Some(live[at].fields[k].value),
                new: desired.fields[k].value,
            },
        ],
{
    let target = live_target(desired, live[at]);
    let relations = live[at].relations;
    lemma_field_isolation(desired.fields, live[at].fields, target, k);
    assert forall|j: int| 0 <= j < relations.len() implies relations_map(relations).contains_key(
        (#[trigger] relations[j]).related,
    ) && relations_map(relations)[relations[j].related] == relations[j].role by {
        lemma_relation_found(relations, j);
    }
    lemma_no_adds(relations, relations.len(), relations, target);
    lemma_no_removals(relations, relations.len(), relations, target);
    let edit = edits_upto(desired.fields, desired.fields.len(), live[at].fields, target);
    assert(edit + Seq::<ActionView>::empty() + Seq::<ActionView>::empty() =~= edit);
}

proof fn lemma_quiet_edits(desired: Seq<FieldView>, n: nat, live: Seq<FieldView>, target: TargetView)
    requires
        n <= desired.len(),
        edits_upto(desired, n, live, target) == Seq::<ActionView>::empty(),
    ensures
        forall|j: int|
            0 <= j < n ==> fields_map(live).contains_key((#[trigger] desired[j]).name)
                && fields_map(live)[desired[j].name] == desired[j].value,
    decreases n,
{
    if n > 0 {
        let before = edits_upto(desired, (n - 1) as nat, live, target);
        let step = field_edit(desired[n - 1], live, target);
        assert((before + step).len() == before.len() + step.len());
        assert(before =~= Seq::<ActionView>::empty());
        lemma_quiet_edits(desired, (n - 1) as nat, live, target);
    }
}

proof fn lemma_quiet_adds(desired: Seq<Relation>, n: nat, live: Seq<Relation>, target: TargetView)
    requires
        n <= desired.len(),
        adds_upto(desired, n, live, target) == Seq::<ActionView>::empty(),
    ensures
        forall|j: int|
            0 <= j < n ==> relations_map(live).contains_key((#[trigger] desired[j]).related)
                && relations_map(live)[desired[j].related] == desired[j].role,
    decreases n,
{
    if n > 0 {
        let before = adds_upto(desired, (n - 1) as nat, live, target);
        let step = relation_add(desired[n - 1], live, target);
        assert((before + step).len() == before.len() + step.len());
        assert(before =~= Seq::<ActionView>::empty());
        lemma_quiet_adds(desired, (n - 1) as nat, live, target);
    }
}

proof fn lemma_quiet_removals(live: Seq<Relation>, n: nat, desired: Seq<Relation>, target: TargetView)
    requires
        n <= live.len(),
        removals_upto(live, n, desired, target) == Seq::<ActionView>::empty(),
    ensures
        forall|j: int|
            0 <= j < n ==> first_where(desired, relation_to((#[trigger] live[j]).related))
                is Some,
    decreases n,
{
    if n > 0 {
        let before = removals_upto(live, (n - 1) as nat, desired, target);
        let step = relation_removal(live[n - 1], desired, target);
        assert((before + step).len() == before.len() + step.len());
        assert(before =~= Seq::<ActionView>::empty());
        lemma_quiet_removals(live, (n - 1) as nat, desired, target);
    }
}

/// Where the diff has no action for a desired entity, the platform holds the
/// entity as it is desired.
proof fn lemma_quiet_is_satisfied(desired: EntityView, index: int, live: Seq<EntityView>)
    requires
        entity_actions(desired, index, live) == Seq::<ActionView>::empty(),
    ensures
        satisfied(desired, state_of(live)),
{
    let key = entity_key(desired);
    lemma_state_of(live, key);
    match first_where(live, entity_keyed(desired.kind, desired.name)) {
        None => {
            let target = pending_target(desired, index);
            let create = ActionView::CreateEntity { target, fields: desired.fields };
            let adds = adds_upto(
                desired.relations,
                desired.relations.len(),
                Seq::empty(),
                target,
            );
            assert((seq![create] + adds).len() > 0);
        },
        Some(k) => {
            let target = live_target(desired, live[k]);
            let edits = edits_upto(desired.fields, desired.fields.len(), live[k].fields, target);
            let adds = adds_upto(
                desired.relations,
                desired.relations.len(),
                live[k].relations,
                target,
            );
            let removals = if prunes_relations(desired.kind) {
                removals_upto(
                    live[k].relations,
                    live[k].relations.len(),
                    desired.relations,
                    target,
                )
            } else {
                Seq::empty()
            };
            assert((edits + adds + removals).len() == edits.len() + adds.len() + removals.len());
            assert(edits =~= Seq::<ActionView>::empty());
            assert(adds =~= Seq::<ActionView>::empty());
            assert(removals =~= Seq::<ActionView>::empty());
            lemma_quiet_edits(desired.fields, desired.fields.len(), live[k].fields, target);
            lemma_quiet_adds(desired.relations, desired.relations.len(), live[k].relations, target);
            if prunes_relations(desired.kind) {
                lemma_quiet_removals(
                    live[k].relations,
                    live[k].relations.len(),
                    desired.relations,
                    target,
                );
                assert forall|id: u64| #[trigger]
                    state_of(live)[key].relations.contains_key(id) implies first_where(
                    desired.relations,
                    relation_to(id),
                ) is Some by {
                    lemma_relations_map(live[k].relations, id);
                    let m = choose|m: int|
                        0 <= m < live[k].relations.len() && (#[trigger] live[k].relations[m]).related
                            == id;
                    assert(first_where(desired.relations, relation_to(live[k].relations[m].related))
                        is Some);
                }
            }
        },
    }
}

proof fn lemma_quiet_blocks(desired: Seq<EntityView>, n: nat, live: Seq<EntityView>)
    requires
        n <= desired.len(),
        all_actions_upto(desired, n, live) == Seq::<ActionView>::empty(),
    ensures
        forall|i: int| 0 <= i < n ==> satisfied(#[trigger] desired[i], state_of(live)),
    decreases n,
{
    if n > 0 {
        let before = all_actions_upto(desired, (n - 1) as nat, live);
        let block = entity_actions(desired[n - 1], n - 1, live);
        assert((before + block).len() == before.len() + block.len());
        assert(before =~= Seq::<ActionView>::empty());
        assert(block =~= Seq::<ActionView>::empty());
        lemma_quiet_blocks(desired, (n - 1) as nat, live);
        lemma_quiet_is_satisfied(desired[n - 1], n - 1, live);
    }
}

/// The diff is empty exactly where the platform holds every desired entity as
/// it is desired: the engine asks for nothing that is met, and it misses
/// nothing that is not.
pub proof fn lemma_empty_iff_in_line(desired: Seq<EntityView>, live: Seq<EntityView>)
    ensures
        diff_actions(desired, live) == Seq::<ActionView>::empty() <==> forall|i: int|
            0 <= i < desired.len() ==> satisfied(#[trigger] desired[i], state_of(live)),
{
    let actions = all_actions_upto(desired, desired.len(), live);
    if diff_actions(desired, live) == Seq::<ActionView>::empty() {
        crate::model::lemma_creates_first(actions);
        assert(actions =~= Seq::<ActionView>::empty());
        lemma_quiet_blocks(desired, desired.len(), live);
    }
    if forall|i: int| 0 <= i < desired.len() ==> satisfied(#[trigger] desired[i], state_of(live)) {
        lemma_in_line_is_empty(desired, live);
    }
}

/// Whether every action of a list has the given target.
pub open spec fn all_target(actions: Seq<ActionView>, target: TargetView) -> bool {
    forall|p: int| 0 <= p < actions.len() ==> (#[trigger] actions[p]).target() == target
}

proof fn lemma_edits_target(desired: Seq<FieldView>, n: nat, live: Seq<FieldView>, target: TargetView)
    requires
        n <= desired.len(),
    ensures
        all_target(edits_upto(desired, n, live, target), target),
    decreases n,
{
    if n > 0 {
        lemma_edits_target(desired, (n - 1) as nat, live, target);
    }
}

proof fn lemma_adds_target(desired: Seq<Relation>, n: nat, live: Seq<Relation>, target: TargetView)
    requires
        n <= desired.len(),
    ensures
        all_target(adds_upto(desired, n, live, target), target),
    decreases n,
{
    if n > 0 {
        lemma_adds_target(desired, (n - 1) as nat, live, target);
    }
}

proof fn lemma_removals_target(live: Seq<Relation>, n: nat, desired: Seq<Relation>, target: TargetView)
    requires
        n <= live.len(),
    ensures
        all_target(removals_upto(live, n, desired, target), target),
    decreases n,
{
    if n > 0 {
        lemma_removals_target(live, (n - 1) as nat, desired, target);
    }
}

/// Whether every entity of a snapshot is known to the platform.
pub open spec fn all_committed(live: Seq<EntityView>) -> bool {
    forall|k: int| 0 <= k < live.len() ==> (#[trigger] live[k]).identity is Committed
}

/// The actions for one desired entity have one target. Where that target is
/// pending, the first of them creates it.
proof fn lemma_block_target(desired: EntityView, index: int, live: Seq<EntityView>)
    requires
        all_committed(live),
    ensures
        ({
            let block = entity_actions(desired, index, live);
            forall|p: int|
                0 <= p < block.len() && (#[trigger] block[p]).target().identity is Pending
                    ==> block[0] is CreateEntity && block[0].target() == block[p].target()
        }),
{
    lemma_first_where(live, entity_keyed(desired.kind, desired.name));
    match first_where(live, entity_keyed(desired.kind, desired.name)) {
        None => {
            let target = pending_target(desired, index);
            lemma_adds_target(desired.relations, desired.relations.len(), Seq::empty(), target);
        },
        Some(k) => {
            let target = live_target(desired, live[k]);
            lemma_edits_target(desired.fields, desired.fields.len(), live[k].fields, target);
            lemma_adds_target(
                desired.relations,
                desired.relations.len(),
                live[k].relations,
                target,
            );
            lemma_removals_target(
                live[k].relations,
                live[k].relations.len(),
                desired.relations,
                target,
            );
        },
    }
}

/// Every action on a pending target comes with the creation of that target.
proof fn lemma_pending_is_created(desired: Seq<EntityView>, n: nat, live: Seq<EntityView>)
    requires
        n <= desired.len(),
        all_committed(live),
    ensures
        ({
            let actions = all_actions_upto(desired, n, live);
            forall|p: int|
                0 <= p < actions.len() && (#[trigger] actions[p]).target().identity is Pending
                    ==> exists|c: int|
                    0 <= c < actions.len() && (#[trigger] actions[c]) is CreateEntity
                        && actions[c].target() == actions[p].target()
        }),
    decreases n,
{
    if n > 0 {
        let before = all_actions_upto(desired, (n - 1) as nat, live);
        let block = entity_actions(desired[n - 1], n - 1, live);
        let actions = before + block;
        lemma_pending_is_created(desired, (n - 1) as nat, live);
        lemma_block_target(desired[n - 1], n - 1, live);
        assert forall|p: int|
            0 <= p < actions.len() && (#[trigger] actions[p]).target().identity
                is Pending implies exists|c: int|
            0 <= c < actions.len() && (#[trigger] actions[c]) is CreateEntity
                && actions[c].target() == actions[p].target() by {
            if p < before.len() {
                assert(actions[p] == before[p]);
                let c = choose|c: int|
                    0 <= c < before.len() && (#[trigger] before[c]) is CreateEntity
                        && before[c].target() == before[p].target();
                assert(actions[c] == before[c]);
            } else {
                assert(actions[p] == block[p - before.len()]);
                assert(actions[before.len() as int] == block[0]);
            }
        }
    }
}

proof fn lemma_creations_kept(actions: Seq<ActionView>, n: nat, c: int)
    requires
        n <= actions.len(),
        0 <= c < n,
        actions[c] is CreateEntity,
    ensures
        exists|k: int|
            0 <= k < creations_upto(actions, n).len() && (#[trigger] creations_upto(actions, n)[k])
                == actions[c],
    decreases n,
{
    let now = creations_upto(actions, n);
    if c == n - 1 {
        assert(now[now.len() - 1] == actions[c]);
    } else {
        lemma_creations_kept(actions, (n - 1) as nat, c);
        let before = creations_upto(actions, (n - 1) as nat);
        let k = choose|k: int| 0 <= k < before.len() && (#[trigger] before[k]) == actions[c];
        assert(now[k] == before[k]);
    }
}

/// The ordering of a diff. Where the live snapshot holds only entities that
/// the platform knows, every action of the diff on a pending target comes
/// after the action that creates this target.
pub proof fn lemma_created_before_use(desired: Seq<EntityView>, live: Seq<EntityView>, m: int)
    requires
        all_committed(live),
        0 <= m < diff_actions(desired, live).len(),
        !(diff_actions(desired, live)[m] is CreateEntity),
        diff_actions(desired, live)[m].target().identity is Pending,
    ensures
        exists|c: int|
            0 <= c < m && (#[trigger] diff_actions(desired, live)[c]) is CreateEntity
                && diff_actions(desired, live)[c].target() == diff_actions(desired, live)[m].target(),
{
    let actions = all_actions_upto(desired, desired.len(), live);
    let creations = creations_upto(actions, actions.len());
    let changes = changes_upto(actions, actions.len());
    let ordered = diff_actions(desired, live);
    crate::model::lemma_groups(actions, actions.len());
    assert(ordered == creations + changes);
    if m < creations.len() {
        assert(ordered[m] == creations[m]);
        assert(false);
    }
    assert(ordered[m] == changes[m - creations.len()]);
    lemma_changes_come_from(actions, actions.len());
    let j = choose|j: int| 0 <= j < actions.len() && changes[m - creations.len()] == actions[j];
    lemma_pending_is_created(desired, desired.len(), live);
    let c = choose|c: int|
        0 <= c < actions.len() && (#[trigger] actions[c]) is CreateEntity && actions[c].target()
            == actions[j].target();
    lemma_creations_kept(actions, actions.len(), c);
    let k = choose|k: int| 0 <= k < creations.len() && (#[trigger] creations[k]) == actions[c];
    assert(ordered[k] == creations[k]);
}

} // verus!
