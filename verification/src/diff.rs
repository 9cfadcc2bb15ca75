//! The diff engine: from a desired and a live snapshot to the ordered actions
//! that move the live one towards the desired one.

use crate::model::{
    append_actions, clone_fields, creates_first, creations_lead, Action, ActionView, Diff, Entity,
    EntityView, Field, FieldName, FieldView, Identity, Kind, Relation, Target, TargetView,
};
use crate::laws::{entity_key, unique_fields, unique_relations, well_formed};
use crate::seqs::{first_where, lemma_first_where_is, lemma_first_where_none};
use vstd::prelude::*;

verus! {

/// Holds of the entities of the given kind and name.
pub open spec fn entity_keyed(kind: Kind, name: Seq<char>) -> spec_fn(EntityView) -> bool {
    |e: EntityView| e.kind == kind && e.name == name
}

/// Holds of the field called `name`.
pub open spec fn field_named(name: FieldName) -> spec_fn(FieldView) -> bool {
    |f: FieldView| f.name == name
}

/// Holds of the relations to the account `related`.
pub open spec fn relation_to(related: u64) -> spec_fn(Relation) -> bool {
    |r: Relation| r.related == related
}

/// Whether relations that the desired entity does not list are removed from an
/// entity of this kind. Entities of the other kinds keep what they have.
pub open spec fn prunes_relations(kind: Kind) -> bool {
    kind is Team || kind is Repository || kind is Role
}

/// The edit that one desired field asks for: none where the live entity holds
/// the field with that value, else one that names this field only.
pub open spec fn field_edit(field: FieldView, live: Seq<FieldView>, target: TargetView) -> Seq<
    ActionView,
> {
    match first_where(live, field_named(field.name)) {
        Some(k) => if live[k].value == field.value {
            Seq::empty()
        } else {
            seq![
                ActionView::EditField {
                    target,
                    field: field.name,
                    old: Some(live[k].value),
                    new: field.value,
                },
            ]
        },
        None => seq![
            ActionView::EditField { target, field: field.name, old: None, new: field.value },
        ],
    }
}

/// The edits for the first `n` desired fields.
pub open spec fn edits_upto(desired: Seq<FieldView>, n: nat, live: Seq<FieldView>, target: TargetView) -> Seq<
    ActionView,
>
    decreases n,
{
    if n == 0 {
        Seq::empty()
    } else {
        edits_upto(desired, (n - 1) as nat, live, target) + field_edit(desired[n - 1], live, target)
    }
}

/// What one desired relation asks for: nothing where the live entity has it
/// with that role, else that it be set.
pub open spec fn relation_add(relation: Relation, live: Seq<Relation>, target: TargetView) -> Seq<
    ActionView,
> {
    match first_where(live, relation_to(relation.related)) {
        Some(k) => if live[k].role == relation.role {
            Seq::empty()
        } else {
            seq![
                ActionView::AddRelation { target, related: relation.related, role: relation.role },
            ]
        },
        None => seq![
            ActionView::AddRelation { target, related: relation.related, role: relation.role },
        ],
    }
}

/// What the first `n` desired relations ask for.
pub open spec fn adds_upto(desired: Seq<Relation>, n: nat, live: Seq<Relation>, target: TargetView) -> Seq<
    ActionView,
>
    decreases n,
{
    if n == 0 {
        Seq::empty()
    } else {
        adds_upto(desired, (n - 1) as nat, live, target) + relation_add(
            desired[n - 1],
            live,
            target,
        )
    }
}

/// What becomes of one live relation: it is removed where the desired entity
/// does not list the account.
pub open spec fn relation_removal(relation: Relation, desired: Seq<Relation>, target: TargetView) -> Seq<
    ActionView,
> {
    if first_where(desired, relation_to(relation.related)) is None {
        seq![ActionView::RemoveRelation { target, related: relation.related }]
    } else {
        Seq::empty()
    }
}

/// The removals among the first `n` live relations.
pub open spec fn removals_upto(live: Seq<Relation>, n: nat, desired: Seq<Relation>, target: TargetView) -> Seq<
    ActionView,
>
    decreases n,
{
    if n == 0 {
        Seq::empty()
    } else {
        removals_upto(live, (n - 1) as nat, desired, target) + relation_removal(
            live[n - 1],
            desired,
            target,
        )
    }
}

/// The target of the actions for a desired entity that the platform has.
pub open spec fn live_target(desired: EntityView, live: EntityView) -> TargetView {
    TargetView { kind: desired.kind, name: desired.name, identity: live.identity }
}

/// The target of the actions for a desired entity that the platform lacks: it
/// is known by its place in the desired snapshot.
pub open spec fn pending_target(desired: EntityView, index: int) -> TargetView {
    TargetView { kind: desired.kind, name: desired.name, identity: Identity::Pending(index as u64) }
}

/// The actions for the desired entity at `index`. Where the platform lacks it,
/// it is created with its fields and then given its relations. Where the
/// platform has it, each differing field gets an edit of its own, each missing
/// or differing relation is set, and, for the kinds that prune, each relation
/// that is not desired is removed.
pub open spec fn entity_actions(desired: EntityView, index: int, live: Seq<EntityView>) -> Seq<
    ActionView,
> {
    match first_where(live, entity_keyed(desired.kind, desired.name)) {
        None => {
            let target = pending_target(desired, index);
            seq![ActionView::CreateEntity { target, fields: desired.fields }] + adds_upto(
                desired.relations,
                desired.relations.len(),
                Seq::empty(),
                target,
            )
        },
        Some(k) => {
            let target = live_target(desired, live[k]);
            edits_upto(desired.fields, desired.fields.len(), live[k].fields, target) + adds_upto(
                desired.relations,
                desired.relations.len(),
                live[k].relations,
                target,
            ) + (if prunes_relations(desired.kind) {
                removals_upto(
                    live[k].relations,
                    live[k].relations.len(),
                    desired.relations,
                    target,
                )
            } else {
                Seq::empty()
            })
        },
    }
}

/// The actions for the first `n` desired entities, entity after entity.
pub open spec fn all_actions_upto(desired: Seq<EntityView>, n: nat, live: Seq<EntityView>) -> Seq<
    ActionView,
>
    decreases n,
{
    if n == 0 {
        Seq::empty()
    } else {
        all_actions_upto(desired, (n - 1) as nat, live) + entity_actions(
            desired[n - 1],
            n - 1,
            live,
        )
    }
}

/// The diff of a desired and a live snapshot: the actions for every desired
/// entity in the order of the desired snapshot, with every creation moved to
/// the front. Live entities that are not desired are left alone.
pub open spec fn diff_actions(desired: Seq<EntityView>, live: Seq<EntityView>) -> Seq<ActionView> {
    creates_first(all_actions_upto(desired, desired.len(), live))
}

/// The position of the first entity of the given kind and name.
pub fn find_entity(entities: &Vec<Entity>, kind: Kind, name: &String) -> (r: Option<usize>)
    ensures
        match r {
            Some(k) => k < entities.len() && first_where(
                entities.deep_view(),
                entity_keyed(kind, name@),
            ) == Some(k as int),
            None => first_where(entities.deep_view(), entity_keyed(kind, name@)) is None,
        },
{
    let ghost wanted = entity_keyed(kind, name@);
    let ghost view = entities.deep_view();
    let mut i: usize = 0;
    while i < entities.len()
        invariant
            i <= entities.len(),
            view == entities.deep_view(),
            wanted == entity_keyed(kind, name@),
            forall|j: int| 0 <= j < i ==> !wanted(#[trigger] view[j]),
        decreases entities.len() - i,
    {
        if entities[i].kind == kind && entities[i].name == *name {
            proof {
                assert(wanted(view[i as int]));
                lemma_first_where_is(view, wanted, i as int);
            }
            return Some(i);
        }
        assert(!wanted(view[i as int]));
        i += 1;
    }
    proof {
        lemma_first_where_none(view, wanted);
    }
    None
}

/// The position of the first field called `name`.
pub fn find_field(fields: &Vec<Field>, name: FieldName) -> (r: Option<usize>)
    ensures
        match r {
            Some(k) => k < fields.len() && first_where(fields.deep_view(), field_named(name))
                == Some(k as int),
            None => first_where(fields.deep_view(), field_named(name)) is None,
        },
{
    let ghost wanted = field_named(name);
    let ghost view = fields.deep_view();
    let mut i: usize = 0;
    while i < fields.len()
        invariant
            i <= fields.len(),
            view == fields.deep_view(),
            wanted == field_named(name),
            forall|j: int| 0 <= j < i ==> !wanted(#[trigger] view[j]),
        decreases fields.len() - i,
    {
        if fields[i].name == name {
            proof {
                assert(wanted(view[i as int]));
                lemma_first_where_is(view, wanted, i as int);
            }
            return Some(i);
        }
        assert(!wanted(view[i as int]));
        i += 1;
    }
    proof {
        lemma_first_where_none(view, wanted);
    }
    None
}

/// The position of the first relation to the account `related`.
pub fn find_relation(relations: &Vec<Relation>, related: u64) -> (r: Option<usize>)
    ensures
        match r {
            Some(k) => k < relations.len() && first_where(relations@, relation_to(related))
                == Some(k as int),
            None => first_where(relations@, relation_to(related)) is None,
        },
{
    let ghost wanted = relation_to(related);
    let mut i: usize = 0;
    while i < relations.len()
        invariant
            i <= relations.len(),
            wanted == relation_to(related),
            forall|j: int| 0 <= j < i ==> !wanted(#[trigger] relations@[j]),
        decreases relations.len() - i,
    {
        if relations[i].related == related {
            proof {
                assert(wanted(relations@[i as int]));
                lemma_first_where_is(relations@, wanted, i as int);
            }
            return Some(i);
        }
        assert(!wanted(relations@[i as int]));
        i += 1;
    }
    proof {
        lemma_first_where_none(relations@, wanted);
    }
    None
}

impl Kind {
    /// Whether relations that are not desired are removed from an entity of
    /// this kind.
    pub fn prunes_relations(&self) -> (b: bool)
        ensures
            b == prunes_relations(*self),
    {
        match self {
            Kind::Team => true,
            Kind::Repository => true,
            Kind::Role => true,
            _ => false,
        }
    }
}

/// The edits that bring the live fields to the desired values, one for each
/// field that differs.
pub fn diff_fields(desired: &Vec<Field>, live: &Vec<Field>, target: &Target) -> (r: Vec<Action>)
    ensures
        r.deep_view() == edits_upto(
            desired.deep_view(),
            desired.len() as nat,
            live.deep_view(),
            target.deep_view(),
        ),
{
    let ghost wanted_fields = desired.deep_view();
    let ghost live_fields = live.deep_view();
    let mut out: Vec<Action> = Vec::new();
    assert(out.deep_view() =~= Seq::<ActionView>::empty());
    let mut i: usize = 0;
    while i < desired.len()
        invariant
            i <= desired.len(),
            wanted_fields == desired.deep_view(),
            live_fields == live.deep_view(),
            out.deep_view() == edits_upto(wanted_fields, i as nat, live_fields, target.deep_view()),
        decreases desired.len() - i,
    {
        let field = &desired[i];
        assert(wanted_fields[i as int] == field.deep_view());
        let ghost before = out.deep_view();
        let old = match find_field(live, field.name) {
            Some(k) => {
                assert(live_fields[k as int] == live[k as int].deep_view());
                if live[k].value.same(&field.value) {
                    None
                } else {
                    Some(Some(live[k].value.clone()))
                }
            },
            None => Some(None),
        };
        match old {
            None => {
                assert(before + Seq::<ActionView>::empty() =~= before);
            },
            Some(old) => {
                let ghost shown = old.deep_view();
                out.push(
                    Action::EditField {
                        target: target.clone(),
                        field: field.name,
                        old,
                        new: field.value.clone(),
                    },
                );
                assert(out.deep_view() =~= before + seq![
                    ActionView::EditField {
                        target: target.deep_view(),
                        field: field.name,
                        old: shown,
                        new: field.value.deep_view(),
                    },
                ]);
            },
        }
        i += 1;
    }
    out
}

/// The actions that set each desired relation that the live entity lacks or
/// holds with another role.
pub fn diff_additions(desired: &Vec<Relation>, live: &Vec<Relation>, target: &Target) -> (r: Vec<
    Action,
>)
    ensures
        r.deep_view() == adds_upto(desired@, desired.len() as nat, live@, target.deep_view()),
{
    let mut out: Vec<Action> = Vec::new();
    assert(out.deep_view() =~= Seq::<ActionView>::empty());
    let mut i: usize = 0;
    while i < desired.len()
        invariant
            i <= desired.len(),
            out.deep_view() == adds_upto(desired@, i as nat, live@, target.deep_view()),
        decreases desired.len() - i,
    {
        let relation = desired[i];
        let ghost before = out.deep_view();
        let settled = match find_relation(live, relation.related) {
            Some(k) => live[k].role == relation.role,
            None => false,
        };
        if settled {
            assert(before + Seq::<ActionView>::empty() =~= before);
        } else {
            out.push(
                Action::AddRelation {
                    target: target.clone(),
                    related: relation.related,
                    role: relation.role,
                },
            );
            assert(out.deep_view() =~= before + seq![
                ActionView::AddRelation {
                    target: target.deep_view(),
                    related: relation.related,
                    role: relation.role,
                },
            ]);
        }
        i += 1;
    }
    out
}

/// The actions that remove each live relation that is not desired.
pub fn diff_removals(live: &Vec<Relation>, desired: &Vec<Relation>, target: &Target) -> (r: Vec<
    Action,
>)
    ensures
        r.deep_view() == removals_upto(live@, live.len() as nat, desired@, target.deep_view()),
{
    let mut out: Vec<Action> = Vec::new();
    assert(out.deep_view() =~= Seq::<ActionView>::empty());
    let mut i: usize = 0;
    while i < live.len()
        invariant
            i <= live.len(),
            out.deep_view() == removals_upto(live@, i as nat, desired@, target.deep_view()),
        decreases live.len() - i,
    {
        let relation = live[i];
        let ghost before = out.deep_view();
        match find_relation(desired, relation.related) {
            Some(_) => {
                assert(before + Seq::<ActionView>::empty() =~= before);
            },
            None => {
                out.push(Action::RemoveRelation { target: target.clone(), related: relation.related });
                assert(out.deep_view() =~= before + seq![
                    ActionView::RemoveRelation {
                        target: target.deep_view(),
                        related: relation.related,
                    },
                ]);
            },
        }
        i += 1;
    }
    out
}

/// The actions for one desired entity, which stands at `index` in the desired
/// snapshot.
pub fn diff_entity(desired: &Entity, index: usize, live: &Vec<Entity>) -> (r: Vec<Action>)
    ensures
        r.deep_view() == entity_actions(desired.deep_view(), index as int, live.deep_view()),
{
    let ghost snapshot = live.deep_view();
    match find_entity(live, desired.kind, &desired.name) {
        None => {
            let target = Target {
                kind: desired.kind,
                name: desired.name.clone(),
                identity: Identity::Pending(index as u64),
            };
            assert(target.deep_view() == pending_target(desired.deep_view(), index as int));
            let mut out: Vec<Action> = Vec::new();
            out.push(
                Action::CreateEntity { target: target.clone(), fields: clone_fields(&desired.fields) },
            );
            assert(out.deep_view() =~= seq![
                ActionView::CreateEntity {
                    target: target.deep_view(),
                    fields: desired.fields.deep_view(),
                },
            ]);
            let none: Vec<Relation> = Vec::new();
            assert(none@ =~= Seq::<Relation>::empty());
            append_actions(&mut out, diff_additions(&desired.relations, &none, &target));
            out
        },
        Some(k) => {
            let found = &live[k];
            assert(snapshot[k as int] == found.deep_view());
            let target = Target {
                kind: desired.kind,
                name: desired.name.clone(),
                identity: found.identity,
            };
            assert(target.deep_view() == live_target(desired.deep_view(), found.deep_view()));
            let mut out = diff_fields(&desired.fields, &found.fields, &target);
            append_actions(&mut out, diff_additions(&desired.relations, &found.relations, &target));
            if desired.kind.prunes_relations() {
                append_actions(&mut out, diff_removals(&found.relations, &desired.relations, &target));
            } else {
                assert(out.deep_view() + Seq::<ActionView>::empty() =~= out.deep_view());
            }
            out
        },
    }
}

/// Compares a desired with a live snapshot. The result depends on the two
/// snapshots alone.
pub fn diff(desired: &Vec<Entity>, live: &Vec<Entity>) -> (r: Diff)
    ensures
        r.deep_view() == diff_actions(desired.deep_view(), live.deep_view()),
        creations_lead(r.deep_view()),
{
    let ghost wanted = desired.deep_view();
    let ghost snapshot = live.deep_view();
    let mut actions: Vec<Action> = Vec::new();
    assert(actions.deep_view() =~= Seq::<ActionView>::empty());
    let mut i: usize = 0;
    while i < desired.len()
        invariant
            i <= desired.len(),
            wanted == desired.deep_view(),
            snapshot == live.deep_view(),
            actions.deep_view() == all_actions_upto(wanted, i as nat, snapshot),
        decreases desired.len() - i,
    {
        assert(wanted[i as int] == desired[i as int].deep_view());
        append_actions(&mut actions, diff_entity(&desired[i], i, live));
        i += 1;
    }
    Diff::ordered(actions)
}

/// Whether no field name comes twice.
pub fn has_unique_fields(fields: &Vec<Field>) -> (b: bool)
    ensures
        b == unique_fields(fields.deep_view()),
{
    let ghost view = fields.deep_view();
    let mut j: usize = 0;
    while j < fields.len()
        invariant
            j <= fields.len(),
            view == fields.deep_view(),
            forall|a: int, c: int|
                0 <= a < c < j ==> (#[trigger] view[a]).name != (#[trigger] view[c]).name,
        decreases fields.len() - j,
    {
        let mut i: usize = 0;
        while i < j
            invariant
                i <= j < fields.len(),
                view == fields.deep_view(),
                forall|a: int| 0 <= a < i ==> (#[trigger] view[a]).name != view[j as int].name,
            decreases j - i,
        {
            assert(view[i as int] == fields[i as int].deep_view());
            assert(view[j as int] == fields[j as int].deep_view());
            if fields[i].name == fields[j].name {
                return false;
            }
            i += 1;
        }
        j += 1;
    }
    true
}

/// Whether no account comes twice.
pub fn has_unique_relations(relations: &Vec<Relation>) -> (b: bool)
    ensures
        b == unique_relations(relations@),
{
    let mut j: usize = 0;
    while j < relations.len()
        invariant
            j <= relations.len(),
            forall|a: int, c: int|
                0 <= a < c < j ==> (#[trigger] relations@[a]).related != (
                #[trigger] relations@[c]).related,
        decreases relations.len() - j,
    {
        let mut i: usize = 0;
        while i < j
            invariant
                i <= j < relations.len(),
                forall|a: int|
                    0 <= a < i ==> (#[trigger] relations@[a]).related != relations@[j
                        as int].related,
            decreases j - i,
        {
            if relations[i].related == relations[j].related {
                return false;
            }
            i += 1;
        }
        j += 1;
    }
    true
}

/// Whether a desired snapshot names every entity once, and within each entity
/// every field and every related account once.
pub fn is_well_formed(desired: &Vec<Entity>) -> (b: bool)
    ensures
        b == well_formed(desired.deep_view()),
{
    let ghost view = desired.deep_view();
    let mut j: usize = 0;
    while j < desired.len()
        invariant
            j <= desired.len(),
            view == desired.deep_view(),
            forall|a: int, c: int|
                0 <= a < c < j ==> entity_key(#[trigger] view[a]) != entity_key(
                    #[trigger] view[c],
                ),
            forall|a: int|
                0 <= a < j ==> unique_fields((#[trigger] view[a]).fields) && unique_relations(
                    view[a].relations,
                ),
        decreases desired.len() - j,
    {
        assert(view[j as int] == desired[j as int].deep_view());
        if !has_unique_fields(&desired[j].fields) || !has_unique_relations(&desired[j].relations) {
            return false;
        }
        let mut i: usize = 0;
        while i < j
            invariant
                i <= j < desired.len(),
                view == desired.deep_view(),
                forall|a: int|
                    0 <= a < i ==> entity_key(#[trigger] view[a]) != entity_key(view[j as int]),
            decreases j - i,
        {
            assert(view[i as int] == desired[i as int].deep_view());
            assert(view[j as int] == desired[j as int].deep_view());
            if desired[i].kind == desired[j].kind && desired[i].name == desired[j].name {
                return false;
            }
            i += 1;
        }
        j += 1;
    }
    true
}

/// A desired snapshot that names an entity, a field of an entity or an
/// account of an entity twice. No diff is computed from it.
#[derive(Clone, Copy, Debug, PartialEq, Eq, Structural)]
pub struct Malformed;

/// Compares a desired with a live snapshot, and refuses a desired snapshot
/// that says something twice: what it asks for would not be clear. Of the
/// diffs that this gives, all laws of the engine hold.
pub fn reconcile(desired: &Vec<Entity>, live: &Vec<Entity>) -> (r: Result<Diff, Malformed>)
    ensures
        r is Ok <==> well_formed(desired.deep_view()),
        r is Ok ==> r->Ok_0.deep_view() == diff_actions(desired.deep_view(), live.deep_view())
            && creations_lead(r->Ok_0.deep_view()),
{
    if is_well_formed(desired) {
        Ok(diff(desired, live))
    } else {
        Err(Malformed)
    }
}

} // verus!
