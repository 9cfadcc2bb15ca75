//! The data that the pipeline works on: entities, their identities, and the
//! actions that move a live snapshot towards the desired one.

use vstd::prelude::*;

verus! {

/// What an entity is.
#[derive(Clone, Copy, Debug, PartialEq, Eq, Structural)]
pub enum Kind {
    Organization,
    Team,
    Membership,
    Repository,
    RepoPermission,
    BranchProtectionRule,
    AppInstallation,
    Role,
}

/// How an entity is known to the platform.
#[derive(Clone, Copy, Debug, PartialEq, Eq, Structural)]
pub enum Identity {
    /// The entity exists on the platform under this remote id.
    Committed(u64),
    /// The entity is proposed by the current run and known by a local key only.
    Pending(u64),
}

/// The role that a related account has in an entity.
#[derive(Clone, Copy, Debug, PartialEq, Eq, Structural)]
pub enum TeamRole {
    Member,
    Maintainer,
}

/// Who may see a team.
#[derive(Clone, Copy, Debug, PartialEq, Eq, Structural)]
pub enum TeamPrivacy {
    Closed,
    Secret,
}

/// The fields that the pipeline manages. A field that is not listed here never
/// appears in a diff.
#[derive(Clone, Copy, Debug, PartialEq, Eq, Structural)]
pub enum FieldName {
    Description,
    Privacy,
    Color,
    Position,
    Permission,
    Pattern,
    AdminEnforced,
    RequiredApprovals,
}

/// The value of a managed field.
#[derive(Debug, PartialEq, Eq)]
pub enum Value {
    Number(u64),
    Flag(bool),
    Text(String),
}

pub enum ValueView {
    Number(u64),
    Flag(bool),
    Text(Seq<char>),
}

impl DeepView for Value {
    type V = ValueView;

    open spec fn deep_view(&self) -> ValueView {
        match self {
            Value::Number(n) => ValueView::Number(*n),
            Value::Flag(b) => ValueView::Flag(*b),
            Value::Text(t) => ValueView::Text(t@),
        }
    }
}

impl Clone for Value {
    fn clone(&self) -> (r: Self)
        ensures
            r.deep_view() == self.deep_view(),
    {
        match self {
            Value::Number(n) => Value::Number(*n),
            Value::Flag(b) => Value::Flag(*b),
            Value::Text(t) => Value::Text(t.clone()),
        }
    }
}

impl Value {
    /// Whether two values are the same value.
    pub fn same(&self, other: &Value) -> (b: bool)
        ensures
            b == (self.deep_view() == other.deep_view()),
    {
        match (self, other) {
            (Value::Number(a), Value::Number(b)) => *a == *b,
            (Value::Flag(a), Value::Flag(b)) => *a == *b,
            (Value::Text(a), Value::Text(b)) => *a == *b,
            _ => false,
        }
    }
}

/// One managed field of an entity.
#[derive(Debug, PartialEq, Eq)]
pub struct Field {
    pub name: FieldName,
    pub value: Value,
}

pub struct FieldView {
    pub name: FieldName,
    pub value: ValueView,
}

impl DeepView for Field {
    type V = FieldView;

    open spec fn deep_view(&self) -> FieldView {
        FieldView { name: self.name, value: self.value.deep_view() }
    }
}

impl Clone for Field {
    fn clone(&self) -> (r: Self)
        ensures
            r.deep_view() == self.deep_view(),
    {
        Field { name: self.name, value: self.value.clone() }
    }
}

/// An account that is related to an entity, with its role there.
#[derive(Clone, Copy, Debug, PartialEq, Eq, Structural)]
pub struct Relation {
    pub related: u64,
    pub role: TeamRole,
}

impl DeepView for Relation {
    type V = Relation;

    open spec fn deep_view(&self) -> Relation {
        *self
    }
}

/// An entity of a snapshot. Desired and live snapshots are matched by kind and
/// name. The identity of a desired entity is not read.
#[derive(Debug, PartialEq, Eq)]
pub struct Entity {
    pub kind: Kind,
    pub name: String,
    pub identity: Identity,
    pub fields: Vec<Field>,
    pub relations: Vec<Relation>,
}

pub struct EntityView {
    pub kind: Kind,
    pub name: Seq<char>,
    pub identity: Identity,
    pub fields: Seq<FieldView>,
    pub relations: Seq<Relation>,
}

impl DeepView for Entity {
    type V = EntityView;

    open spec fn deep_view(&self) -> EntityView {
        EntityView {
            kind: self.kind,
            name: self.name@,
            identity: self.identity,
            fields: self.fields.deep_view(),
            relations: self.relations@,
        }
    }
}

/// The entity that an action is about.
#[derive(Debug, PartialEq, Eq)]
pub struct Target {
    pub kind: Kind,
    pub name: String,
    pub identity: Identity,
}

pub struct TargetView {
    pub kind: Kind,
    pub name: Seq<char>,
    pub identity: Identity,
}

impl DeepView for Target {
    type V = TargetView;

    open spec fn deep_view(&self) -> TargetView {
        TargetView { kind: self.kind, name: self.name@, identity: self.identity }
    }
}

impl Clone for Target {
    fn clone(&self) -> (r: Self)
        ensures
            r.deep_view() == self.deep_view(),
    {
        Target { kind: self.kind, name: self.name.clone(), identity: self.identity }
    }
}

/// One change to the platform. Each action says all that is needed to carry it
/// out, and carrying it out twice leaves the platform as carrying it out once.
#[derive(Debug, PartialEq, Eq)]
pub enum Action {
    CreateEntity { target: Target, fields: Vec<Field> },
    EditField { target: Target, field: FieldName, old: Option<Value>, new: Value },
    AddRelation { target: Target, related: u64, role: TeamRole },
    RemoveRelation { target: Target, related: u64 },
}

pub enum ActionView {
    CreateEntity { target: TargetView, fields: Seq<FieldView> },
    EditField { target: TargetView, field: FieldName, old: Option<ValueView>, new: ValueView },
    AddRelation { target: TargetView, related: u64, role: TeamRole },
    RemoveRelation { target: TargetView, related: u64 },
}

impl DeepView for Action {
    type V = ActionView;

    open spec fn deep_view(&self) -> ActionView {
        match self {
            Action::CreateEntity { target, fields } => ActionView::CreateEntity {
                target: target.deep_view(),
                fields: fields.deep_view(),
            },
            Action::EditField { target, field, old, new } => ActionView::EditField {
                target: target.deep_view(),
                field: *field,
                old: old.deep_view(),
                new: new.deep_view(),
            },
            Action::AddRelation { target, related, role } => ActionView::AddRelation {
                target: target.deep_view(),
                related: *related,
                role: *role,
            },
            Action::RemoveRelation { target, related } => ActionView::RemoveRelation {
                target: target.deep_view(),
                related: *related,
            },
        }
    }
}

impl ActionView {
    /// The entity that the action is about.
    pub open spec fn target(self) -> TargetView {
        match self {
            ActionView::CreateEntity { target, .. } => target,
            ActionView::EditField { target, .. } => target,
            ActionView::AddRelation { target, .. } => target,
            ActionView::RemoveRelation { target, .. } => target,
        }
    }
}

/// The ordered actions for one platform.
#[derive(Debug, PartialEq, Eq)]
pub struct Diff {
    pub actions: Vec<Action>,
}

impl DeepView for Diff {
    type V = Seq<ActionView>;

    open spec fn deep_view(&self) -> Seq<ActionView> {
        self.actions.deep_view()
    }
}

/// Copies a list of fields.
pub fn clone_fields(fields: &Vec<Field>) -> (r: Vec<Field>)
    ensures
        r.deep_view() == fields.deep_view(),
{
    let mut out: Vec<Field> = Vec::new();
    let mut i: usize = 0;
    while i < fields.len()
        invariant
            i <= fields.len(),
            out.len() == i,
            forall|k: int| 0 <= k < i ==> out[k].deep_view() == fields[k].deep_view(),
        decreases fields.len() - i,
    {
        out.push(fields[i].clone());
        i += 1;
    }
    assert(out.deep_view() =~= fields.deep_view());
    out
}

/// Copies a value that may be missing.
pub fn clone_value(value: &Option<Value>) -> (r: Option<Value>)
    ensures
        r.deep_view() == value.deep_view(),
{
    match value {
        Some(v) => Some(v.clone()),
        None => None,
    }
}

impl Clone for Action {
    fn clone(&self) -> (r: Self)
        ensures
            r.deep_view() == self.deep_view(),
    {
        match self {
            Action::CreateEntity { target, fields } => Action::CreateEntity {
                target: target.clone(),
                fields: clone_fields(fields),
            },
            Action::EditField { target, field, old, new } => Action::EditField {
                target: target.clone(),
                field: *field,
                old: clone_value(old),
                new: new.clone(),
            },
            Action::AddRelation { target, related, role } => Action::AddRelation {
                target: target.clone(),
                related: *related,
                role: *role,
            },
            Action::RemoveRelation { target, related } => Action::RemoveRelation {
                target: target.clone(),
                related: *related,
            },
        }
    }
}

/// The creations among the first `n` actions, in order.
pub open spec fn creations_upto(actions: Seq<ActionView>, n: nat) -> Seq<ActionView>
    decreases n,
{
    if n == 0 {
        Seq::empty()
    } else if actions[n - 1] is CreateEntity {
        creations_upto(actions, (n - 1) as nat).push(actions[n - 1])
    } else {
        creations_upto(actions, (n - 1) as nat)
    }
}

/// Those of the first `n` actions that create nothing, in order.
pub open spec fn changes_upto(actions: Seq<ActionView>, n: nat) -> Seq<ActionView>
    decreases n,
{
    if n == 0 {
        Seq::empty()
    } else if actions[n - 1] is CreateEntity {
        changes_upto(actions, (n - 1) as nat)
    } else {
        changes_upto(actions, (n - 1) as nat).push(actions[n - 1])
    }
}

/// The same actions with every creation moved before every other action, the
/// order within each of the two groups kept.
pub open spec fn creates_first(actions: Seq<ActionView>) -> Seq<ActionView> {
    creations_upto(actions, actions.len()) + changes_upto(actions, actions.len())
}

/// Whether every creation comes before every action that creates nothing.
pub open spec fn creations_lead(actions: Seq<ActionView>) -> bool {
    forall|i: int, j: int|
        0 <= i < actions.len() && 0 <= j < actions.len() && actions[i] is CreateEntity
            && !(actions[j] is CreateEntity) ==> i < j
}

/// The two groups hold creations only and no creation, and together as many
/// actions as were given.
pub proof fn lemma_groups(actions: Seq<ActionView>, n: nat)
    requires
        n <= actions.len(),
    ensures
        forall|i: int|
            0 <= i < creations_upto(actions, n).len() ==> (#[trigger] creations_upto(
                actions,
                n,
            )[i]) is CreateEntity,
        forall|i: int|
            0 <= i < changes_upto(actions, n).len() ==> !((#[trigger] changes_upto(
                actions,
                n,
            )[i]) is CreateEntity),
        creations_upto(actions, n).len() + changes_upto(actions, n).len() == n,
        creations_upto(actions, n).to_multiset().add(changes_upto(actions, n).to_multiset())
            == actions.take(n as int).to_multiset(),
    decreases n,
{
    broadcast use vstd::seq_lib::group_to_multiset_ensures;

    if n > 0 {
        lemma_groups(actions, (n - 1) as nat);
        assert(actions.take(n as int) =~= actions.take(n - 1).push(actions[n - 1]));
    } else {
        assert(actions.take(0) =~= Seq::<ActionView>::empty());
    }
}

/// Ordering keeps every action as often as it was given and puts the creations
/// first.
pub proof fn lemma_creates_first(actions: Seq<ActionView>)
    ensures
        creations_lead(creates_first(actions)),
        creates_first(actions).len() == actions.len(),
        creates_first(actions).to_multiset() == actions.to_multiset(),
{
    lemma_groups(actions, actions.len());
    assert(actions.take(actions.len() as int) =~= actions);
    vstd::seq_lib::lemma_multiset_commutative(
        creations_upto(actions, actions.len()),
        changes_upto(actions, actions.len()),
    );
}

/// Appends `more` to `actions`.
pub fn append_actions(actions: &mut Vec<Action>, more: Vec<Action>)
    ensures
        final(actions).deep_view() == old(actions).deep_view() + more.deep_view(),
{
    let mut more = more;
    let ghost added = more.deep_view();
    actions.append(&mut more);
    assert(actions.deep_view() =~= old(actions).deep_view() + added);
}

impl Diff {
    /// Orders the actions so that every creation comes before every other
    /// action.
    pub fn ordered(actions: Vec<Action>) -> (diff: Diff)
        ensures
            diff.deep_view() == creates_first(actions.deep_view()),
            creations_lead(diff.deep_view()),
    {
        let ghost given = actions.deep_view();
        let mut creations: Vec<Action> = Vec::new();
        let mut changes: Vec<Action> = Vec::new();
        assert(creations.deep_view() =~= Seq::<ActionView>::empty());
        assert(changes.deep_view() =~= Seq::<ActionView>::empty());
        let mut i: usize = 0;
        while i < actions.len()
            invariant
                i <= actions.len(),
                given == actions.deep_view(),
                creations.deep_view() == creations_upto(given, i as nat),
                changes.deep_view() == changes_upto(given, i as nat),
            decreases actions.len() - i,
        {
            let action = actions[i].clone();
            assert(given[i as int] == actions[i as int].deep_view());
            let ghost before_creations = creations.deep_view();
            let ghost before_changes = changes.deep_view();
            match action {
                Action::CreateEntity { .. } => {
                    creations.push(action);
                    assert(creations.deep_view() =~= before_creations.push(given[i as int]));
                },
                _ => {
                    changes.push(action);
                    assert(changes.deep_view() =~= before_changes.push(given[i as int]));
                },
            }
            i += 1;
        }
        append_actions(&mut creations, changes);
        proof {
            lemma_creates_first(given);
        }
        Diff { actions: creations }
    }
}

} // verus!
