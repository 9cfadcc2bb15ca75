//! The apply executor: it replays the actions of a diff in order, one write
//! at a time. The caller performs each write and reports how it went.

use crate::model::{Action, ActionView, Diff, Identity, Target, TargetView};
use crate::seqs::{first_where, lemma_first_where, lemma_first_where_is, lemma_first_where_none, reversed};
use vstd::prelude::*;

verus! {

/// How an action fared.
#[derive(Clone, Copy, Debug, PartialEq, Eq, Structural)]
pub enum Status {
    /// The write was made.
    Applied,
    /// A dry run: the write was noted and not made.
    Simulated,
    /// The write failed.
    Failed,
    /// The write was not tried, because an earlier one failed.
    Skipped,
}

/// How a write went.
#[derive(Clone, Copy, Debug, PartialEq, Eq, Structural)]
pub enum WriteOutcome {
    /// The write was made.
    Done,
    /// The write was made and created an entity with this remote id.
    Created(u64),
    /// The write failed.
    Failed,
}

/// The platforms whose diffs are applied.
#[derive(Clone, Copy, Debug, PartialEq, Eq, Structural)]
pub enum Platform {
    GitHub,
    Discord,
}

/// The diff of one platform.
#[derive(Debug, PartialEq, Eq)]
pub enum ServiceDiff {
    GitHub { diff: Diff },
    Discord { diff: Diff },
}

pub struct ServiceDiffView {
    pub platform: Platform,
    pub actions: Seq<ActionView>,
}

impl DeepView for ServiceDiff {
    type V = ServiceDiffView;

    open spec fn deep_view(&self) -> ServiceDiffView {
        match self {
            ServiceDiff::GitHub { diff } => ServiceDiffView {
                platform: Platform::GitHub,
                actions: diff.deep_view(),
            },
            ServiceDiff::Discord { diff } => ServiceDiffView {
                platform: Platform::Discord,
                actions: diff.deep_view(),
            },
        }
    }
}

/// Holds of the resolutions of the local key `key`.
pub open spec fn resolves(key: u64) -> spec_fn((u64, u64)) -> bool {
    |r: (u64, u64)| r.0 == key
}

/// The identity under which a write reaches an entity: the remote id that a
/// pending entity was created under where that is known, else the identity as
/// it is.
pub open spec fn resolved_identity(identity: Identity, resolved: Seq<(u64, u64)>) -> Identity {
    match identity {
        Identity::Committed(id) => Identity::Committed(id),
        Identity::Pending(key) => match first_where(resolved, resolves(key)) {
            Some(k) => Identity::Committed(resolved[k].1),
            None => Identity::Pending(key),
        },
    }
}

/// An action with the identity of its target resolved.
pub open spec fn resolved_action(action: ActionView, resolved: Seq<(u64, u64)>) -> ActionView {
    match action {
        ActionView::CreateEntity { target, fields } => ActionView::CreateEntity {
            target: TargetView { identity: resolved_identity(target.identity, resolved), ..target },
            fields,
        },
        ActionView::EditField { target, field, old, new } => ActionView::EditField {
            target: TargetView { identity: resolved_identity(target.identity, resolved), ..target },
            field,
            old,
            new,
        },
        ActionView::AddRelation { target, related, role } => ActionView::AddRelation {
            target: TargetView { identity: resolved_identity(target.identity, resolved), ..target },
            related,
            role,
        },
        ActionView::RemoveRelation { target, related } => ActionView::RemoveRelation {
            target: TargetView { identity: resolved_identity(target.identity, resolved), ..target },
            related,
        },
    }
}

/// The state of a replay.
pub struct ReplayView {
    pub actions: Seq<ActionView>,
    pub dry_run: bool,
    /// How the actions fared so far, one entry for each action that is done
    /// with.
    pub results: Seq<Status>,
    /// The remote ids that pending entities were created under, by local key.
    pub resolved: Seq<(u64, u64)>,
}

/// Whether a replay is in a state that it can come to.
pub open spec fn replay_valid(replay: ReplayView) -> bool {
    replay.results.len() <= replay.actions.len()
}

/// `n` times the same status.
pub open spec fn repeated(status: Status, n: nat) -> Seq<Status> {
    Seq::new(n, |i: int| status)
}

/// The state before the first write. A dry run is over at once: every action
/// counts as simulated, and none is ever handed out for writing.
pub open spec fn replay_start(actions: Seq<ActionView>, dry_run: bool) -> ReplayView {
    ReplayView {
        actions,
        dry_run,
        results: if dry_run {
            repeated(Status::Simulated, actions.len())
        } else {
            Seq::empty()
        },
        resolved: Seq::empty(),
    }
}

/// The write to make next: the first action that is not done with, its target
/// resolved; nothing when every action is done with.
pub open spec fn replay_next(replay: ReplayView) -> Option<ActionView> {
    if replay.results.len() < replay.actions.len() {
        Some(resolved_action(replay.actions[replay.results.len() as int], replay.resolved))
    } else {
        None
    }
}

/// The resolutions after the write for `action` created the remote id `id`:
/// a creation of a pending entity makes its local key stand for `id`.
pub open spec fn resolved_after(resolved: Seq<(u64, u64)>, action: ActionView, id: u64) -> Seq<
    (u64, u64),
> {
    match action {
        ActionView::CreateEntity { target, .. } => match target.identity {
            Identity::Pending(key) => resolved.push((key, id)),
            Identity::Committed(_) => resolved,
        },
        _ => resolved,
    }
}

/// The state after the write that `replay_next` asked for went as `outcome`
/// says. A failure ends the replay: the failed action is marked, all that
/// follow are skipped, and what was applied before stays applied. Where no
/// write was asked for, the state stays as it is.
pub open spec fn replay_step(replay: ReplayView, outcome: WriteOutcome) -> ReplayView {
    if replay.results.len() >= replay.actions.len() {
        replay
    } else {
        let action = replay.actions[replay.results.len() as int];
        match outcome {
            WriteOutcome::Done => ReplayView {
                results: replay.results.push(Status::Applied),
                ..replay
            },
            WriteOutcome::Created(id) => ReplayView {
                results: replay.results.push(Status::Applied),
                resolved: resolved_after(replay.resolved, action, id),
                ..replay
            },
            WriteOutcome::Failed => ReplayView {
                results: replay.results.push(Status::Failed) + repeated(
                    Status::Skipped,
                    (replay.actions.len() - replay.results.len() - 1) as nat,
                ),
                ..replay
            },
        }
    }
}

/// The replay of one diff.
#[derive(Debug, PartialEq, Eq)]
pub struct Executor {
    pub diff: Diff,
    pub dry_run: bool,
    pub results: Vec<Status>,
    pub resolved: Vec<(u64, u64)>,
}

impl View for Executor {
    type V = ReplayView;

    open spec fn view(&self) -> ReplayView {
        ReplayView {
            actions: self.diff.deep_view(),
            dry_run: self.dry_run,
            results: self.results@,
            resolved: self.resolved@,
        }
    }
}

fn resolve(identity: Identity, resolved: &Vec<(u64, u64)>) -> (r: Identity)
    ensures
        r == resolved_identity(identity, resolved@),
{
    match identity {
        Identity::Committed(id) => Identity::Committed(id),
        Identity::Pending(key) => {
            let ghost wanted = resolves(key);
            let mut i: usize = 0;
            while i < resolved.len()
                invariant
                    i <= resolved.len(),
                    identity == Identity::Pending(key),
                    wanted == resolves(key),
                    forall|j: int| 0 <= j < i ==> !wanted(#[trigger] resolved@[j]),
                decreases resolved.len() - i,
            {
                if resolved[i].0 == key {
                    proof {
                        assert(wanted(resolved@[i as int]));
                        lemma_first_where_is(resolved@, wanted, i as int);
                    }
                    return Identity::Committed(resolved[i].1);
                }
                assert(!wanted(resolved@[i as int]));
                i += 1;
            }
            proof {
                lemma_first_where_none(resolved@, wanted);
            }
            Identity::Pending(key)
        },
    }
}

fn resolve_target(target: &Target, resolved: &Vec<(u64, u64)>) -> (r: Target)
    ensures
        r.deep_view() == (TargetView {
            identity: resolved_identity(target.identity, resolved@),
            ..target.deep_view()
        }),
{
    Target {
        kind: target.kind,
        name: target.name.clone(),
        identity: resolve(target.identity, resolved),
    }
}

fn resolve_action(action: &Action, resolved: &Vec<(u64, u64)>) -> (r: Action)
    ensures
        r.deep_view() == resolved_action(action.deep_view(), resolved@),
{
    match action {
        Action::CreateEntity { target, fields } => Action::CreateEntity {
            target: resolve_target(target, resolved),
            fields: crate::model::clone_fields(fields),
        },
        Action::EditField { target, field, old, new } => Action::EditField {
            target: resolve_target(target, resolved),
            field: *field,
            old: crate::model::clone_value(old),
            new: new.clone(),
        },
        Action::AddRelation { target, related, role } => Action::AddRelation {
            target: resolve_target(target, resolved),
            related: *related,
            role: *role,
        },
        Action::RemoveRelation { target, related } => Action::RemoveRelation {
            target: resolve_target(target, resolved),
            related: *related,
        },
    }
}

fn fill(results: &mut Vec<Status>, status: Status, n: usize)
    ensures
        final(results)@ == old(results)@ + repeated(status, n as nat),
{
    assert(results@ =~= old(results)@ + repeated(status, 0));
    let mut i: usize = 0;
    while i < n
        invariant
            i <= n,
            results@ == old(results)@ + repeated(status, i as nat),
        decreases n - i,
    {
        results.push(status);
        assert(results@ =~= old(results)@ + repeated(status, (i + 1) as nat));
        i += 1;
    }
}

impl Executor {
    /// Sets a diff up for replay.
    pub fn new(diff: Diff, dry_run: bool) -> (executor: Self)
        ensures
            executor@ == replay_start(diff.deep_view(), dry_run),
            replay_valid(executor@),
    {
        let mut results: Vec<Status> = Vec::new();
        if dry_run {
            fill(&mut results, Status::Simulated, diff.actions.len());
        }
        let executor = Executor { diff, dry_run, results, resolved: Vec::new() };
        assert(executor@.results =~= replay_start(diff.deep_view(), dry_run).results);
        executor
    }

    /// Whether the replay is in a state that it can come to. A replay that was
    /// set up with `new` and moved on with `record` alone always is.
    pub fn is_valid(&self) -> (b: bool)
        ensures
            b == replay_valid(self@),
    {
        self.results.len() <= self.diff.actions.len()
    }

    /// The write to make next; nothing when the replay is over.
    pub fn next(&self) -> (action: Option<Action>)
        requires
            replay_valid(self@),
        ensures
            action.deep_view() == replay_next(self@),
    {
        if self.results.len() < self.diff.actions.len() {
            let position = self.results.len();
            assert(self.diff.deep_view()[position as int] == self.diff.actions[position
                as int].deep_view());
            Some(resolve_action(&self.diff.actions[position], &self.resolved))
        } else {
            None
        }
    }

    /// Whether every action is done with.
    pub fn finished(&self) -> (b: bool)
        requires
            replay_valid(self@),
        ensures
            b == (replay_next(self@) is None),
    {
        self.results.len() >= self.diff.actions.len()
    }

    /// Whether a write failed.
    pub fn failed(&self) -> (b: bool)
        ensures
            b == self@.results.contains(Status::Failed),
    {
        let mut i: usize = 0;
        while i < self.results.len()
            invariant
                i <= self.results.len(),
                forall|j: int| 0 <= j < i ==> self.results@[j] != Status::Failed,
            decreases self.results.len() - i,
        {
            if self.results[i] == Status::Failed {
                return true;
            }
            i += 1;
        }
        false
    }

    /// Takes in how the write that `next` asked for went.
    pub fn record(&mut self, outcome: WriteOutcome)
        requires
            replay_valid(old(self)@),
        ensures
            final(self)@ == replay_step(old(self)@, outcome),
            replay_valid(final(self)@),
    {
        let total = self.diff.actions.len();
        let position = self.results.len();
        if position >= total {
            return;
        }
        assert(self.diff.deep_view()[position as int] == self.diff.actions[position
            as int].deep_view());
        match outcome {
            WriteOutcome::Done => {
                self.results.push(Status::Applied);
            },
            WriteOutcome::Created(id) => {
                self.results.push(Status::Applied);
                match &self.diff.actions[position] {
                    Action::CreateEntity { target, .. } => match target.identity {
                        Identity::Pending(key) => {
                            self.resolved.push((key, id));
                        },
                        Identity::Committed(_) => {},
                    },
                    _ => {},
                }
            },
            WriteOutcome::Failed => {
                self.results.push(Status::Failed);
                fill(&mut self.results, Status::Skipped, total - position - 1);
            },
        }
    }
}

/// A dry run hands out no write, and counts every action as simulated.
pub proof fn lemma_dry_run_writes_nothing(actions: Seq<ActionView>)
    ensures
        replay_next(replay_start(actions, true)) is None,
        replay_start(actions, true).results == repeated(Status::Simulated, actions.len()),
{
}

/// A failure ends the replay: no further write is handed out, the actions
/// before the failed one keep their results, the failed one is marked, and
/// each later one is skipped.
pub proof fn lemma_fail_fast(replay: ReplayView)
    requires
        replay_valid(replay),
        replay_next(replay) is Some,
    ensures
        replay_next(replay_step(replay, WriteOutcome::Failed)) is None,
        replay_step(replay, WriteOutcome::Failed).results.len() == replay.actions.len(),
        forall|i: int|
            0 <= i < replay.results.len() ==> replay_step(replay, WriteOutcome::Failed).results[i]
                == replay.results[i],
        replay_step(replay, WriteOutcome::Failed).results[replay.results.len() as int]
            == Status::Failed,
        forall|i: int|
            replay.results.len() < i < replay.actions.len() ==> replay_step(
                replay,
                WriteOutcome::Failed,
            ).results[i] == Status::Skipped,
{
}

/// The writes are handed out in the order of the diff: the write after `n`
/// results is the action at `n`, and a write that went well moves on by one.
pub proof fn lemma_replay_in_order(replay: ReplayView, outcome: WriteOutcome)
    requires
        replay_valid(replay),
        replay_next(replay) is Some,
        !(outcome is Failed),
    ensures
        replay_next(replay) == Some(
            resolved_action(replay.actions[replay.results.len() as int], replay.resolved),
        ),
        replay_step(replay, outcome).results == replay.results.push(Status::Applied),
        replay_step(replay, outcome).actions == replay.actions,
{
}

/// After a pending entity was created, the writes that follow reach it under
/// the remote id that it was given, as long as no earlier creation used the
/// same local key.
pub proof fn lemma_created_is_resolved(replay: ReplayView, key: u64, id: u64)
    requires
        replay_valid(replay),
        replay_next(replay) is Some,
        replay.actions[replay.results.len() as int] is CreateEntity,
        replay.actions[replay.results.len() as int].target().identity == Identity::Pending(key),
        first_where(replay.resolved, resolves(key)) is None,
    ensures
        resolved_identity(
            Identity::Pending(key),
            replay_step(replay, WriteOutcome::Created(id)).resolved,
        ) == Identity::Committed(id),
{
    let after = replay.resolved.push((key, id));
    crate::seqs::lemma_first_where(replay.resolved, resolves(key));
    assert(resolves(key)(after[replay.resolved.len() as int]));
    assert forall|j: int| 0 <= j < replay.resolved.len() implies !resolves(key)(
        #[trigger] after[j],
    ) by {
        assert(after[j] == replay.resolved[j]);
    }
    lemma_first_where_is(after, resolves(key), replay.resolved.len() as int);
}

/// The replays of a run, platform after platform.
#[derive(Debug, PartialEq, Eq)]
pub struct Run {
    pub platforms: Vec<(Platform, Executor)>,
}

impl View for Run {
    type V = Seq<(Platform, ReplayView)>;

    open spec fn view(&self) -> Seq<(Platform, ReplayView)> {
        Seq::new(
            self.platforms@.len(),
            |i: int| (self.platforms@[i].0, self.platforms@[i].1@),
        )
    }
}

/// Whether every replay of a run is in a state that it can come to.
pub open spec fn run_valid(run: Seq<(Platform, ReplayView)>) -> bool {
    forall|i: int| 0 <= i < run.len() ==> replay_valid((#[trigger] run[i]).1)
}

/// Holds of the replays that have a write to make.
pub open spec fn pending() -> spec_fn((Platform, ReplayView)) -> bool {
    |p: (Platform, ReplayView)| replay_next(p.1) is Some
}

/// The run before its first write: a replay for each diff, in the order of the
/// diffs.
pub open spec fn run_start(diffs: Seq<ServiceDiffView>, dry_run: bool) -> Seq<(Platform, ReplayView)> {
    Seq::new(diffs.len(), |i: int| (diffs[i].platform, replay_start(diffs[i].actions, dry_run)))
}

/// The write to make next: that of the first platform whose replay is not
/// over, with the place and the name of that platform. A platform's replay
/// runs to its end before the next platform's begins.
pub open spec fn run_next(run: Seq<(Platform, ReplayView)>) -> Option<(int, Platform, ActionView)> {
    match first_where(run, pending()) {
        Some(i) => Some((i, run[i].0, replay_next(run[i].1)->Some_0)),
        None => None,
    }
}

/// The run after the write that `run_next` asked for went as `outcome` says:
/// the replay of that platform takes the outcome in, and the replays of all
/// other platforms stay as they are.
pub open spec fn run_step(run: Seq<(Platform, ReplayView)>, outcome: WriteOutcome) -> Seq<
    (Platform, ReplayView),
> {
    match first_where(run, pending()) {
        Some(i) => run.update(i, (run[i].0, replay_step(run[i].1, outcome))),
        None => run,
    }
}

/// Whether a write of some platform failed.
pub open spec fn run_failed(run: Seq<(Platform, ReplayView)>) -> bool {
    exists|i: int| 0 <= i < run.len() && (#[trigger] run[i]).1.results.contains(Status::Failed)
}

/// Sets the diffs of a run up for replay, one platform after the other in the
/// order given.
pub fn run_diffs(diffs: Vec<ServiceDiff>, dry_run: bool) -> (run: Run)
    ensures
        run@ == run_start(diffs.deep_view(), dry_run),
        run_valid(run@),
{
    let ghost given = diffs.deep_view();
    let mut rest = reversed(diffs);
    let mut platforms: Vec<(Platform, Executor)> = Vec::new();
    let ghost total = given.len();
    while rest.len() > 0
        invariant
            platforms@.len() + rest@.len() == total,
            total == given.len(),
            forall|j: int|
                0 <= j < rest@.len() ==> (#[trigger] rest@[j]).deep_view() == given[total - 1 - j],
            forall|j: int|
                0 <= j < platforms@.len() ==> (#[trigger] platforms@[j]).0 == given[j].platform
                    && platforms@[j].1@ == replay_start(given[j].actions, dry_run),
        decreases rest.len(),
    {
        let ghost place = platforms@.len() as int;
        let next = rest.pop().unwrap();
        assert(next.deep_view() == given[place]);
        let entry = match next {
            ServiceDiff::GitHub { diff } => (Platform::GitHub, Executor::new(diff, dry_run)),
            ServiceDiff::Discord { diff } => (Platform::Discord, Executor::new(diff, dry_run)),
        };
        platforms.push(entry);
    }
    let run = Run { platforms };
    assert(run@ =~= run_start(given, dry_run));
    run
}

impl Run {
    /// Whether every replay of the run is in a state that it can come to. A run
    /// that was set up with `run_diffs` and moved on with `record` alone always
    /// is.
    pub fn is_valid(&self) -> (b: bool)
        ensures
            b == run_valid(self@),
    {
        let ghost view = self@;
        let mut i: usize = 0;
        while i < self.platforms.len()
            invariant
                i <= self.platforms.len(),
                view == self@,
                forall|j: int| 0 <= j < i ==> replay_valid((#[trigger] view[j]).1),
            decreases self.platforms.len() - i,
        {
            assert(view[i as int] == (self.platforms@[i as int].0, self.platforms@[i as int].1@));
            if !self.platforms[i].1.is_valid() {
                return false;
            }
            i += 1;
        }
        true
    }

    /// The place of the first platform whose replay is not over.
    pub fn current(&self) -> (r: Option<usize>)
        requires
            run_valid(self@),
        ensures
            match r {
                Some(i) => i < self.platforms.len() && first_where(self@, pending()) == Some(
                    i as int,
                ),
                None => first_where(self@, pending()) is None,
            },
    {
        let ghost wanted = pending();
        let ghost view = self@;
        let mut i: usize = 0;
        while i < self.platforms.len()
            invariant
                i <= self.platforms.len(),
                view == self@,
                run_valid(view),
                wanted == pending(),
                forall|j: int| 0 <= j < i ==> !wanted(#[trigger] view[j]),
            decreases self.platforms.len() - i,
        {
            assert(view[i as int] == (self.platforms@[i as int].0, self.platforms@[i as int].1@));
            assert(replay_valid(view[i as int].1));
            if !self.platforms[i].1.finished() {
                proof {
                    assert(wanted(view[i as int]));
                    lemma_first_where_is(view, wanted, i as int);
                }
                return Some(i);
            }
            assert(!wanted(view[i as int]));
            i += 1;
        }
        proof {
            lemma_first_where_none(view, wanted);
        }
        None
    }

    /// The write to make next, with the place and the name of its platform;
    /// nothing when the run is over.
    pub fn next(&self) -> (r: Option<(usize, Platform, Action)>)
        requires
            run_valid(self@),
        ensures
            match r {
                Some((i, platform, action)) => run_next(self@) == Some(
                    (i as int, platform, action.deep_view()),
                ),
                None => run_next(self@) is None,
            },
    {
        match self.current() {
            Some(i) => {
                assert(self@[i as int] == (self.platforms@[i as int].0, self.platforms@[i as int].1@));
                assert(replay_valid(self@[i as int].1));
                match self.platforms[i].1.next() {
                    Some(action) => Some((i, self.platforms[i].0, action)),
                    None => {
                        proof {
                            lemma_first_where(self@, pending());
                        }
                        None
                    },
                }
            },
            None => None,
        }
    }

    /// Takes in how the write that `next` asked for went.
    pub fn record(&mut self, outcome: WriteOutcome)
        requires
            run_valid(old(self)@),
        ensures
            final(self)@ == run_step(old(self)@, outcome),
            run_valid(final(self)@),
    {
        match self.current() {
            Some(i) => {
                let ghost before = self@;
                assert(before[i as int] == (self.platforms@[i as int].0, self.platforms@[i as int].1@));
                assert(replay_valid(before[i as int].1));
                let (platform, mut executor) = self.platforms.remove(i);
                executor.record(outcome);
                self.platforms.insert(i, (platform, executor));
                assert(self@ =~= run_step(before, outcome));
                assert forall|j: int| 0 <= j < self@.len() implies replay_valid(
                    (#[trigger] self@[j]).1,
                ) by {
                    if j != i {
                        assert(self@[j] == before[j]);
                    }
                }
            },
            None => {},
        }
    }

    /// Whether a write of some platform failed. This is told once every
    /// platform had its turn.
    pub fn failed(&self) -> (b: bool)
        ensures
            b == run_failed(self@),
    {
        let ghost view = self@;
        let mut i: usize = 0;
        while i < self.platforms.len()
            invariant
                i <= self.platforms.len(),
                view == self@,
                forall|j: int| 0 <= j < i ==> !(#[trigger] view[j]).1.results.contains(Status::Failed),
            decreases self.platforms.len() - i,
        {
            assert(view[i as int] == (self.platforms@[i as int].0, self.platforms@[i as int].1@));
            if self.platforms[i].1.failed() {
                return true;
            }
            i += 1;
        }
        false
    }
}

/// A failure on one platform ends that platform's replay alone: the replays of
/// the other platforms stay as they are, and the run goes on with the first of
/// them that has a write to make.
pub proof fn lemma_platforms_independent(run: Seq<(Platform, ReplayView)>, i: int)
    requires
        run_valid(run),
        first_where(run, pending()) == Some(i),
    ensures
        forall|j: int|
            0 <= j < run.len() && j != i ==> run_step(run, WriteOutcome::Failed)[j] == run[j],
        replay_next(run_step(run, WriteOutcome::Failed)[i].1) is None,
        forall|j: int|
            i < j < run.len() && replay_next(run[j].1) is Some && (forall|k: int|
                i < k < j ==> replay_next(run[k].1) is None) ==> first_where(
                run_step(run, WriteOutcome::Failed),
                pending(),
            ) == Some(j),
{
    lemma_first_where(run, pending());
    let after = run_step(run, WriteOutcome::Failed);
    assert(replay_valid(run[i].1));
    lemma_fail_fast(run[i].1);
    assert forall|j: int|
        i < j < run.len() && replay_next(run[j].1) is Some && (forall|k: int|
            i < k < j ==> replay_next(run[k].1) is None) implies first_where(after, pending())
        == Some(j) by {
        assert(pending()(after[j]));
        assert forall|k: int| 0 <= k < j implies !pending()(#[trigger] after[k]) by {
            if k < i {
                assert(after[k] == run[k]);
                assert(!pending()(run[k]));
            } else if k > i {
                assert(after[k] == run[k]);
            }
        }
        lemma_first_where_is(after, pending(), j);
    }
}

} // verus!
