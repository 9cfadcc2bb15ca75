use sync_team::cli::{app, CliError, Invocation, Mode, Options, Service, ServiceRun};

fn args(list: &[&str]) -> Vec<String> {
    list.iter().map(|a| a.to_string()).collect()
}

fn options(dry_run: bool, mode: Mode, team_repo: Option<&str>, services: &[Service]) -> Invocation {
    Invocation::Run(Options {
        dry_run,
        mode,
        team_repo: team_repo.map(|p| p.to_string()),
        services: services.to_vec(),
    })
}

const ALL: [Service; 3] = [Service::GitHub, Service::Mailgun, Service::Zulip];

#[test]
fn no_arguments_mean_a_dry_run_of_all_services() {
    assert_eq!(app(&args(&[])), Ok(options(true, Mode::Apply, None, &ALL)));
}

#[test]
fn flags_and_services() {
    assert_eq!(
        app(&args(&["--live", "zulip", "github"])),
        Ok(options(false, Mode::Apply, None, &[Service::Zulip, Service::GitHub]))
    );
    assert_eq!(
        app(&args(&["--team-repo", "/tmp/team", "--only-print-plan"])),
        Ok(options(true, Mode::OnlyPrintPlan, Some("/tmp/team"), &ALL))
    );
    assert_eq!(
        app(&args(&["mailgun", "--require-confirmation", "--live"])),
        Ok(options(false, Mode::RequireConfirmation, None, &[Service::Mailgun]))
    );
    assert_eq!(
        app(&args(&["github", "github"])),
        Ok(options(true, Mode::Apply, None, &[Service::GitHub, Service::GitHub]))
    );
}

#[test]
fn the_argument_after_team_repo_is_a_path_whatever_it_looks_like() {
    assert_eq!(
        app(&args(&["--team-repo", "--live"])),
        Ok(options(true, Mode::Apply, Some("--live"), &ALL))
    );
    assert_eq!(
        app(&args(&["--team-repo", "--help", "--team-repo", "b"])),
        Ok(options(true, Mode::Apply, Some("b"), &ALL))
    );
    assert_eq!(app(&args(&["--team-repo"])), Ok(options(true, Mode::Apply, None, &ALL)));
}

#[test]
fn help_stops_the_reading() {
    assert_eq!(app(&args(&["--help"])), Ok(Invocation::Help));
    assert_eq!(app(&args(&["--live", "--help", "bogus"])), Ok(Invocation::Help));
    assert_eq!(
        app(&args(&["--only-print-plan", "--require-confirmation", "--help"])),
        Ok(Invocation::Help)
    );
}

#[test]
fn an_unknown_argument_is_refused() {
    assert_eq!(app(&args(&["discord"])), Err(CliError::UnknownArgument("discord".to_string())));
    assert_eq!(
        app(&args(&["--live", "--dry", "--help"])),
        Err(CliError::UnknownArgument("--dry".to_string()))
    );
    assert_eq!(app(&args(&[""])), Err(CliError::UnknownArgument(String::new())));
}

#[test]
fn the_two_modes_exclude_each_other() {
    assert_eq!(
        app(&args(&["--only-print-plan", "github", "--require-confirmation"])),
        Err(CliError::ConflictingModes)
    );
}

#[test]
fn services_by_name() {
    assert_eq!(Service::from_name("github"), Some(Service::GitHub));
    assert_eq!(Service::from_name("mailgun"), Some(Service::Mailgun));
    assert_eq!(Service::from_name("zulip"), Some(Service::Zulip));
    assert_eq!(Service::from_name("GitHub"), None);
    assert_eq!(Service::from_name(""), None);
}

#[test]
fn only_a_live_run_that_applies_writes() {
    let options = |dry_run: bool, mode: Mode| Options { dry_run, mode, team_repo: None, services: vec![] };
    assert!(options(false, Mode::Apply).applies());
    assert!(options(false, Mode::RequireConfirmation).applies());
    assert!(!options(false, Mode::OnlyPrintPlan).applies());
    assert!(!options(true, Mode::Apply).applies());
    assert!(!options(true, Mode::RequireConfirmation).applies());
    assert!(!options(true, Mode::OnlyPrintPlan).applies());
    match app(&args(&["--live", "--only-print-plan"])) {
        Ok(Invocation::Run(read)) => assert!(!read.applies()),
        other => panic!("unexpected {:?}", other),
    }
}

#[test]
fn a_failed_service_does_not_stop_the_next() {
    let mut run = ServiceRun::new(vec![Service::GitHub, Service::Mailgun, Service::Zulip]);
    assert!(run.is_valid());
    assert_eq!(run.next(), Some(Service::GitHub));
    run.record(true);
    assert_eq!(run.next(), Some(Service::Mailgun));
    run.record(false);
    assert!(run.failed());
    assert_eq!(run.next(), Some(Service::Zulip));
    run.record(true);
    assert_eq!(run.next(), None);
    assert!(run.failed());
    run.record(false);
    assert_eq!(run.outcomes, vec![true, false, true]);

    let mut fine = ServiceRun::new(vec![Service::Zulip]);
    fine.record(true);
    assert!(!fine.failed());
    assert_eq!(fine.next(), None);
    assert_eq!(ServiceRun::new(vec![]).next(), None);
    fine.outcomes.push(true);
    assert!(!fine.is_valid());
}
