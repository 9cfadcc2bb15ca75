//! What a platform holds, and what the actions of a diff do to it. This is the
//! model against which the laws of the diff engine are stated.

use crate::diff::{entity_keyed, field_named, relation_to};
use crate::model::{ActionView, EntityView, FieldName, FieldView, Kind, Relation, TargetView, TeamRole, ValueView};
use crate::seqs::first_where;
use vstd::prelude::*;

verus! {

/// What a platform holds of one entity: the values of its fields, and the
/// accounts related to it with their roles.
pub struct EntityState {
    pub fields: Map<FieldName, ValueView>,
    pub relations: Map<u64, TeamRole>,
}

/// The values of the fields of a list; where a name comes twice the first
/// counts.
pub open spec fn fields_map(fields: Seq<FieldView>) -> Map<FieldName, ValueView> {
    Map::new(
        |name: FieldName| first_where(fields, field_named(name)) is Some,
        |name: FieldName| fields[first_where(fields, field_named(name))->Some_0].value,
    )
}

/// The roles of the accounts of a list; where an account comes twice the first
/// counts.
pub open spec fn relations_map(relations: Seq<Relation>) -> Map<u64, TeamRole> {
    Map::new(
        |related: u64| first_where(relations, relation_to(related)) is Some,
        |related: u64| relations[first_where(relations, relation_to(related))->Some_0].role,
    )
}

/// What a snapshot says of one entity.
pub open spec fn entity_state(entity: EntityView) -> EntityState {
    EntityState {
        fields: fields_map(entity.fields),
        relations: relations_map(entity.relations),
    }
}

/// What a snapshot says the platform holds: its entities by kind and name;
/// where an entity comes twice the first counts.
pub open spec fn state_of(snapshot: Seq<EntityView>) -> Map<(Kind, Seq<char>), EntityState> {
    Map::new(
        |key: (Kind, Seq<char>)| first_where(snapshot, entity_keyed(key.0, key.1)) is Some,
        |key: (Kind, Seq<char>)|
            entity_state(snapshot[first_where(snapshot, entity_keyed(key.0, key.1))->Some_0]),
    )
}

/// The kind and name of a target.
pub open spec fn key_of(target: TargetView) -> (Kind, Seq<char>) {
    (target.kind, target.name)
}

/// What the platform holds after an action was carried out. A creation makes
/// the entity with its fields unless it exists; an edit sets one field of an
/// entity and leaves the others; a relation is set or removed. An action on an
/// entity that does not exist, other than its creation, changes nothing.
pub open spec fn apply_action(state: Map<(Kind, Seq<char>), EntityState>, action: ActionView) -> Map<
    (Kind, Seq<char>),
    EntityState,
> {
    let key = key_of(action.target());
    match action {
        ActionView::CreateEntity { fields, .. } => if state.contains_key(key) {
            state
        } else {
            state.insert(key, EntityState { fields: fields_map(fields), relations: Map::empty() })
        },
        ActionView::EditField { field, new, .. } => if state.contains_key(key) {
            state.insert(key, EntityState { fields: state[key].fields.insert(field, new), ..state[key] })
        } else {
            state
        },
        ActionView::AddRelation { related, role, .. } => if state.contains_key(key) {
            state.insert(
                key,
                EntityState { relations: state[key].relations.insert(related, role), ..state[key] },
            )
        } else {
            state
        },
        ActionView::RemoveRelation { related, .. } => if state.contains_key(key) {
            state.insert(
                key,
                EntityState { relations: state[key].relations.remove(related), ..state[key] },
            )
        } else {
            state
        },
    }
}

/// What the platform holds after the first `n` actions were carried out in
/// order.
pub open spec fn apply_upto(state: Map<(Kind, Seq<char>), EntityState>, actions: Seq<ActionView>, n: nat) -> Map<
    (Kind, Seq<char>),
    EntityState,
>
    decreases n,
{
    if n == 0 {
        state
    } else {
        apply_action(apply_upto(state, actions, (n - 1) as nat), actions[n - 1])
    }
}

/// What the platform holds after all actions were carried out in order.
pub open spec fn apply_all(state: Map<(Kind, Seq<char>), EntityState>, actions: Seq<ActionView>) -> Map<
    (Kind, Seq<char>),
    EntityState,
> {
    apply_upto(state, actions, actions.len())
}

/// Every action is idempotent: carried out twice it leaves the platform as
/// carried out once.
pub proof fn lemma_action_idempotent(state: Map<(Kind, Seq<char>), EntityState>, action: ActionView)
    ensures
        apply_action(apply_action(state, action), action) == apply_action(state, action),
{
    let once = apply_action(state, action);
    let twice = apply_action(once, action);
    let key = key_of(action.target());
    if state.contains_key(key) {
        match action {
            ActionView::CreateEntity { .. } => {},
            ActionView::EditField { field, new, .. } => {
                assert(once[key].fields.insert(field, new) =~= once[key].fields);
            },
            ActionView::AddRelation { related, role, .. } => {
                assert(once[key].relations.insert(related, role) =~= once[key].relations);
            },
            ActionView::RemoveRelation { related, .. } => {
                assert(once[key].relations.remove(related) =~= once[key].relations);
            },
        }
        assert(twice =~= once);
    } else {
        assert(twice =~= once);
    }
}

/// Carrying out one list of actions and then another is carrying out the two
/// lists joined.
pub proof fn lemma_apply_joined(
    state: Map<(Kind, Seq<char>), EntityState>,
    first: Seq<ActionView>,
    second: Seq<ActionView>,
)
    ensures
        apply_all(state, first + second) == apply_all(apply_all(state, first), second),
{
    lemma_apply_joined_upto(state, first, second, second.len());
    assert((first + second).len() == first.len() + second.len());
}

proof fn lemma_apply_joined_upto(
    state: Map<(Kind, Seq<char>), EntityState>,
    first: Seq<ActionView>,
    second: Seq<ActionView>,
    n: nat,
)
    requires
        n <= second.len(),
    ensures
        apply_upto(state, first + second, first.len() + n) == apply_upto(
            apply_all(state, first),
            second,
            n,
        ),
    decreases n,
{
    if n == 0 {
        lemma_apply_prefix(state, first, first + second, first.len());
    } else {
        lemma_apply_joined_upto(state, first, second, (n - 1) as nat);
        assert((first + second)[first.len() + n - 1] == second[n - 1]);
    }
}

/// What the first `n` actions do depends on these actions alone.
pub proof fn lemma_apply_prefix(
    state: Map<(Kind, Seq<char>), EntityState>,
    first: Seq<ActionView>,
    second: Seq<ActionView>,
    n: nat,
)
    requires
        n <= first.len(),
        n <= second.len(),
        forall|i: int| 0 <= i < n ==> first[i] == second[i],
    ensures
        apply_upto(state, first, n) == apply_upto(state, second, n),
    decreases n,
{
    if n > 0 {
        lemma_apply_prefix(state, first, second, (n - 1) as nat);
    }
}

/// Whether every action of a list is about the entity `key`.
pub open spec fn all_about(actions: Seq<ActionView>, key: (Kind, Seq<char>)) -> bool {
    forall|i: int| 0 <= i < actions.len() ==> key_of((#[trigger] actions[i]).target()) == key
}

/// Whether two states hold the same of an entity.
pub open spec fn same_at(
    first: Map<(Kind, Seq<char>), EntityState>,
    second: Map<(Kind, Seq<char>), EntityState>,
    key: (Kind, Seq<char>),
) -> bool {
    first.contains_key(key) == second.contains_key(key) && (first.contains_key(key) ==> first[key]
        == second[key])
}

/// Actions about one entity leave every other entity as it is.
pub proof fn lemma_frame(
    state: Map<(Kind, Seq<char>), EntityState>,
    actions: Seq<ActionView>,
    n: nat,
    key: (Kind, Seq<char>),
    other: (Kind, Seq<char>),
)
    requires
        n <= actions.len(),
        all_about(actions, key),
        other != key,
    ensures
        same_at(apply_upto(state, actions, n), state, other),
    decreases n,
{
    if n > 0 {
        lemma_frame(state, actions, (n - 1) as nat, key, other);
        assert(key_of(actions[n - 1].target()) == key);
    }
}

/// No action makes an entity disappear.
pub proof fn lemma_stays(
    state: Map<(Kind, Seq<char>), EntityState>,
    actions: Seq<ActionView>,
    n: nat,
    key: (Kind, Seq<char>),
)
    requires
        n <= actions.len(),
        state.contains_key(key),
    ensures
        apply_upto(state, actions, n).contains_key(key),
    decreases n,
{
    if n > 0 {
        lemma_stays(state, actions, (n - 1) as nat, key);
    }
}

} // verus!
