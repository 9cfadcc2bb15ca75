use sync_team::apply::{run_diffs, Executor, Platform, ServiceDiff, Status, WriteOutcome};
use sync_team::model::{Action, Diff, Field, FieldName, Identity, Kind, Target, TeamRole, Value};

fn target(name: &str, identity: Identity) -> Target {
    Target { kind: Kind::Team, name: name.to_string(), identity }
}

fn plan() -> Diff {
    Diff {
        actions: vec![
            Action::CreateEntity {
                target: target("infra", Identity::Pending(1)),
                fields: vec![Field { name: FieldName::Privacy, value: Value::Flag(true) }],
            },
            Action::AddRelation {
                target: target("infra", Identity::Pending(1)),
                related: 9,
                role: TeamRole::Member,
            },
            Action::RemoveRelation { target: target("lang", Identity::Committed(77)), related: 4 },
        ],
    }
}

#[test]
fn a_dry_run_writes_nothing() {
    let executor = Executor::new(plan(), true);
    assert_eq!(executor.next(), None);
    assert!(executor.finished());
    assert!(!executor.failed());
    assert_eq!(executor.results, vec![Status::Simulated; 3]);
}

#[test]
fn writes_are_handed_out_in_order_and_pending_targets_are_resolved() {
    let mut executor = Executor::new(plan(), false);
    assert_eq!(executor.next(), Some(plan().actions.remove(0)));
    executor.record(WriteOutcome::Created(500));
    assert_eq!(
        executor.next(),
        Some(Action::AddRelation {
            target: target("infra", Identity::Committed(500)),
            related: 9,
            role: TeamRole::Member,
        })
    );
    executor.record(WriteOutcome::Done);
    assert_eq!(executor.next(), Some(plan().actions.remove(2)));
    assert!(!executor.finished());
    executor.record(WriteOutcome::Done);
    assert_eq!(executor.next(), None);
    assert!(executor.finished());
    assert!(!executor.failed());
    assert_eq!(executor.results, vec![Status::Applied; 3]);
    executor.record(WriteOutcome::Failed);
    assert_eq!(executor.results, vec![Status::Applied; 3]);
}

#[test]
fn the_first_failure_ends_the_replay() {
    let mut executor = Executor::new(plan(), false);
    executor.record(WriteOutcome::Created(500));
    executor.record(WriteOutcome::Failed);
    assert_eq!(executor.next(), None);
    assert!(executor.failed());
    assert_eq!(executor.results, vec![Status::Applied, Status::Failed, Status::Skipped]);
}

#[test]
fn replays_stay_valid() {
    let mut executor = Executor::new(plan(), false);
    assert!(executor.is_valid());
    executor.record(WriteOutcome::Failed);
    assert!(executor.is_valid());
    executor.results.push(Status::Applied);
    assert!(!executor.is_valid());
    let mut run = run_diffs(vec![ServiceDiff::GitHub { diff: plan() }], true);
    assert!(run.is_valid());
    run.platforms[0].1.results.push(Status::Applied);
    assert!(!run.is_valid());
}

#[test]
fn an_empty_diff_is_over_at_once() {
    let executor = Executor::new(Diff { actions: vec![] }, false);
    assert_eq!(executor.next(), None);
    assert!(executor.finished());
}

#[test]
fn a_failure_on_one_platform_does_not_stop_the_next() {
    let diffs = vec![
        ServiceDiff::GitHub { diff: plan() },
        ServiceDiff::Discord { diff: Diff { actions: vec![] } },
        ServiceDiff::Discord {
            diff: Diff {
                actions: vec![Action::RemoveRelation {
                    target: target("mods", Identity::Committed(3)),
                    related: 1,
                }],
            },
        },
    ];
    let mut run = run_diffs(diffs, false);
    let (place, platform, _) = run.next().unwrap();
    assert_eq!((place, platform), (0, Platform::GitHub));
    run.record(WriteOutcome::Failed);
    let (place, platform, action) = run.next().unwrap();
    assert_eq!((place, platform), (2, Platform::Discord));
    assert_eq!(
        action,
        Action::RemoveRelation { target: target("mods", Identity::Committed(3)), related: 1 }
    );
    run.record(WriteOutcome::Done);
    assert_eq!(run.next(), None);
    assert!(run.failed());
    assert_eq!(
        run.platforms[0].1.results,
        vec![Status::Failed, Status::Skipped, Status::Skipped]
    );
    assert_eq!(run.platforms[2].1.results, vec![Status::Applied]);
}

#[test]
fn a_dry_run_of_all_platforms_is_over_at_once() {
    let run = run_diffs(vec![ServiceDiff::GitHub { diff: plan() }], true);
    assert_eq!(run.next(), None);
    assert!(!run.failed());
    assert_eq!(run.platforms[0].1.results, vec![Status::Simulated; 3]);
}
