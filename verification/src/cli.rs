//! The command line: which services to synchronise, and how.

use crate::text::same;
use vstd::prelude::*;

verus! {

/// The services that can be synchronised.
#[derive(Clone, Copy, Debug, PartialEq, Eq, Structural)]
pub enum Service {
    GitHub,
    Mailgun,
    Zulip,
}

/// The service that a name stands for.
pub open spec fn service_named(name: Seq<char>) -> Option<Service> {
    if name == "github"@ {
        Some(Service::GitHub)
    } else if name == "mailgun"@ {
        Some(Service::Mailgun)
    } else if name == "zulip"@ {
        Some(Service::Zulip)
    } else {
        None
    }
}

/// All services, in the order in which they are synchronised by default.
pub open spec fn all_services() -> Seq<Service> {
    seq![Service::GitHub, Service::Mailgun, Service::Zulip]
}

/// What the arguments read so far have set.
pub struct ScanView {
    pub dry_run: bool,
    /// The argument that comes next is the path that `--team-repo` takes.
    pub next_team_repo: bool,
    pub only_print_plan: bool,
    pub require_confirmation: bool,
    pub team_repo: Option<Seq<char>>,
    pub services: Seq<Service>,
}

/// How far the reading of the arguments got.
pub enum Scan {
    Going(ScanView),
    /// `--help` was read. What follows it is not looked at.
    Help,
    /// This argument is not known. What follows it is not looked at.
    Unknown(Seq<char>),
}

/// The settings before any argument is read: a dry run of no service in
/// particular.
pub open spec fn scan_start() -> ScanView {
    ScanView {
        dry_run: true,
        next_team_repo: false,
        only_print_plan: false,
        require_confirmation: false,
        team_repo: None,
        services: Seq::empty(),
    }
}

/// The reading after one more argument.
pub open spec fn scan_step(scan: ScanView, arg: Seq<char>) -> Scan {
    if scan.next_team_repo {
        Scan::Going(ScanView { team_repo: Some(arg), next_team_repo: false, ..scan })
    } else if arg == "--live"@ {
        Scan::Going(ScanView { dry_run: false, ..scan })
    } else if arg == "--team-repo"@ {
        Scan::Going(ScanView { next_team_repo: true, ..scan })
    } else if arg == "--help"@ {
        Scan::Help
    } else if arg == "--only-print-plan"@ {
        Scan::Going(ScanView { only_print_plan: true, ..scan })
    } else if arg == "--require-confirmation"@ {
        Scan::Going(ScanView { require_confirmation: true, ..scan })
    } else {
        match service_named(arg) {
            Some(service) => Scan::Going(ScanView { services: scan.services.push(service), ..scan }),
            None => Scan::Unknown(arg),
        }
    }
}

/// The reading after the first `n` arguments.
pub open spec fn scan_upto(args: Seq<Seq<char>>, n: nat) -> Scan
    decreases n,
{
    if n == 0 {
        Scan::Going(scan_start())
    } else {
        match scan_upto(args, (n - 1) as nat) {
            Scan::Going(scan) => scan_step(scan, args[n - 1]),
            stopped => stopped,
        }
    }
}

/// What a run is to do with the diffs.
#[derive(Clone, Copy, Debug, PartialEq, Eq, Structural)]
pub enum Mode {
    /// Apply them, or simulate that in a dry run.
    Apply,
    /// Print them and stop.
    OnlyPrintPlan,
    /// Apply them once they are approved.
    RequireConfirmation,
}

/// The settings of a run.
#[derive(Debug, PartialEq, Eq)]
pub struct Options {
    pub dry_run: bool,
    pub mode: Mode,
    pub team_repo: Option<String>,
    pub services: Vec<Service>,
}

pub struct OptionsView {
    pub dry_run: bool,
    pub mode: Mode,
    pub team_repo: Option<Seq<char>>,
    pub services: Seq<Service>,
}

impl DeepView for Options {
    type V = OptionsView;

    open spec fn deep_view(&self) -> OptionsView {
        OptionsView {
            dry_run: self.dry_run,
            mode: self.mode,
            team_repo: self.team_repo.deep_view(),
            services: self.services@,
        }
    }
}

/// What the command line asks for.
#[derive(Debug, PartialEq, Eq)]
pub enum Invocation {
    /// To show the help text and stop.
    Help,
    /// To synchronise.
    Run(Options),
}

/// Why the command line is refused.
#[derive(Debug, PartialEq, Eq)]
pub enum CliError {
    UnknownArgument(String),
    /// Both `--only-print-plan` and `--require-confirmation` were given.
    ConflictingModes,
}

pub enum InvocationView {
    Help,
    Run(OptionsView),
    UnknownArgument(Seq<char>),
    ConflictingModes,
}

/// What the arguments after the program's name ask for. No service named
/// means all services.
pub open spec fn invocation(args: Seq<Seq<char>>) -> InvocationView {
    match scan_upto(args, args.len()) {
        Scan::Help => InvocationView::Help,
        Scan::Unknown(arg) => InvocationView::UnknownArgument(arg),
        Scan::Going(scan) => if scan.only_print_plan && scan.require_confirmation {
            InvocationView::ConflictingModes
        } else {
            InvocationView::Run(
                OptionsView {
                    dry_run: scan.dry_run,
                    mode: if scan.only_print_plan {
                        Mode::OnlyPrintPlan
                    } else if scan.require_confirmation {
                        Mode::RequireConfirmation
                    } else {
                        Mode::Apply
                    },
                    team_repo: scan.team_repo,
                    services: if scan.services.len() == 0 {
                        all_services()
                    } else {
                        scan.services
                    },
                },
            )
        },
    }
}

impl Options {
    /// Whether the run may change the platforms: it is live, and it is not
    /// one that only prints the plan. Without this nothing is written, whatever
    /// else the command line says.
    pub fn applies(&self) -> (b: bool)
        ensures
            b == (!self.dry_run && self.mode != Mode::OnlyPrintPlan),
    {
        match self.mode {
            Mode::OnlyPrintPlan => false,
            _ => !self.dry_run,
        }
    }
}

impl Service {
    /// The service that a name stands for.
    pub fn from_name(name: &str) -> (r: Option<Service>)
        ensures
            r == service_named(name@),
    {
        if same(name, "github") {
            Some(Service::GitHub)
        } else if same(name, "mailgun") {
            Some(Service::Mailgun)
        } else if same(name, "zulip") {
            Some(Service::Zulip)
        } else {
            None
        }
    }
}

/// The view of what `app` gives.
pub open spec fn outcome_view(r: Result<Invocation, CliError>) -> InvocationView {
    match r {
        Ok(Invocation::Help) => InvocationView::Help,
        Ok(Invocation::Run(options)) => InvocationView::Run(options.deep_view()),
        Err(CliError::UnknownArgument(arg)) => InvocationView::UnknownArgument(arg@),
        Err(CliError::ConflictingModes) => InvocationView::ConflictingModes,
    }
}

/// Reads the arguments that follow the program's name.
pub fn app(args: &Vec<String>) -> (r: Result<Invocation, CliError>)
    ensures
        outcome_view(r) == invocation(args.deep_view()),
{
    let ghost view = args.deep_view();
    let mut dry_run = true;
    let mut next_team_repo = false;
    let mut only_print_plan = false;
    let mut require_confirmation = false;
    let mut team_repo: Option<String> = None;
    let mut services: Vec<Service> = Vec::new();
    let mut i: usize = 0;
    while i < args.len()
        invariant
            i <= args.len(),
            view == args.deep_view(),
            scan_upto(view, i as nat) == Scan::Going(
                ScanView {
                    dry_run,
                    next_team_repo,
                    only_print_plan,
                    require_confirmation,
                    team_repo: team_repo.deep_view(),
                    services: services@,
                },
            ),
        decreases args.len() - i,
    {
        let arg = args[i].as_str();
        assert(view[i as int] == arg@);
        if next_team_repo {
            team_repo = Some(args[i].clone());
            next_team_repo = false;
        } else if same(arg, "--live") {
            dry_run = false;
        } else if same(arg, "--team-repo") {
            next_team_repo = true;
        } else if same(arg, "--help") {
            proof {
                lemma_scan_stays_stopped(view, (i + 1) as nat, view.len());
            }
            return Ok(Invocation::Help);
        } else if same(arg, "--only-print-plan") {
            only_print_plan = true;
        } else if same(arg, "--require-confirmation") {
            require_confirmation = true;
        } else {
            match Service::from_name(arg) {
                Some(service) => {
                    services.push(service);
                },
                None => {
                    proof {
                        lemma_scan_stays_stopped(view, (i + 1) as nat, view.len());
                    }
                    return Err(CliError::UnknownArgument(args[i].clone()));
                },
            }
        }
        i += 1;
    }
    if only_print_plan && require_confirmation {
        return Err(CliError::ConflictingModes);
    }
    if services.len() == 0 {
        services.push(Service::GitHub);
        services.push(Service::Mailgun);
        services.push(Service::Zulip);
        assert(services@ =~= all_services());
    }
    let mode = if only_print_plan {
        Mode::OnlyPrintPlan
    } else if require_confirmation {
        Mode::RequireConfirmation
    } else {
        Mode::Apply
    };
    Ok(Invocation::Run(Options { dry_run, mode, team_repo, services }))
}

proof fn lemma_scan_stays_stopped(args: Seq<Seq<char>>, n: nat, m: nat)
    requires
        n <= m,
        !(scan_upto(args, n) is Going),
    ensures
        scan_upto(args, m) == scan_upto(args, n),
    decreases m,
{
    if n < m {
        lemma_scan_stays_stopped(args, n, (m - 1) as nat);
    }
}

/// The services of a run with how those went that had their turn.
#[derive(Debug, PartialEq, Eq)]
pub struct ServiceRun {
    pub services: Vec<Service>,
    /// Whether each service that had its turn went well, in order.
    pub outcomes: Vec<bool>,
}

pub struct ServiceRunView {
    pub services: Seq<Service>,
    pub outcomes: Seq<bool>,
}

impl View for ServiceRun {
    type V = ServiceRunView;

    open spec fn view(&self) -> ServiceRunView {
        ServiceRunView { services: self.services@, outcomes: self.outcomes@ }
    }
}

/// Whether the services of a run are in a state that they can come to.
pub open spec fn services_valid(run: ServiceRunView) -> bool {
    run.outcomes.len() <= run.services.len()
}

/// The service whose turn it is: the first that had none, whatever became of
/// those before it; nothing when every service had its turn.
pub open spec fn service_next(run: ServiceRunView) -> Option<Service> {
    if run.outcomes.len() < run.services.len() {
        Some(run.services[run.outcomes.len() as int])
    } else {
        None
    }
}

/// The run after the service whose turn it was went well or failed. Where no
/// service had its turn, the run stays as it is.
pub open spec fn service_step(run: ServiceRunView, went_well: bool) -> ServiceRunView {
    if run.outcomes.len() < run.services.len() {
        ServiceRunView { outcomes: run.outcomes.push(went_well), ..run }
    } else {
        run
    }
}

/// Whether a service failed.
pub open spec fn services_failed(run: ServiceRunView) -> bool {
    run.outcomes.contains(false)
}

impl ServiceRun {
    /// The run before the first service had its turn.
    pub fn new(services: Vec<Service>) -> (run: Self)
        ensures
            run@ == (ServiceRunView { services: services@, outcomes: Seq::empty() }),
            services_valid(run@),
    {
        ServiceRun { services, outcomes: Vec::new() }
    }

    /// Whether the run is in a state that it can come to. A run that was set
    /// up with `new` and moved on with `record` alone always is.
    pub fn is_valid(&self) -> (b: bool)
        ensures
            b == services_valid(self@),
    {
        self.outcomes.len() <= self.services.len()
    }

    /// The service whose turn it is.
    pub fn next(&self) -> (service: Option<Service>)
        requires
            services_valid(self@),
        ensures
            service == service_next(self@),
    {
        if self.outcomes.len() < self.services.len() {
            Some(self.services[self.outcomes.len()])
        } else {
            None
        }
    }

    /// Takes in how the service that `next` named went.
    pub fn record(&mut self, went_well: bool)
        requires
            services_valid(old(self)@),
        ensures
            final(self)@ == service_step(old(self)@, went_well),
            services_valid(final(self)@),
    {
        if self.outcomes.len() < self.services.len() {
            self.outcomes.push(went_well);
        }
    }

    /// Whether a service failed. This is told once every service had its
    /// turn.
    pub fn failed(&self) -> (b: bool)
        ensures
            b == services_failed(self@),
    {
        let mut i: usize = 0;
        while i < self.outcomes.len()
            invariant
                i <= self.outcomes.len(),
                forall|j: int| 0 <= j < i ==> self.outcomes@[j],
            decreases self.outcomes.len() - i,
        {
            if !self.outcomes[i] {
                return true;
            }
            i += 1;
        }
        false
    }
}

/// A failed service does not stop the run: the service after it has its turn
/// next, and the failure is still known when all had theirs.
pub proof fn lemma_services_go_on(run: ServiceRunView, later: Seq<bool>)
    requires
        services_valid(run),
        service_next(run) is Some,
    ensures
        service_next(service_step(run, false)) == (if run.outcomes.len() + 1
            < run.services.len() {
            Some(run.services[run.outcomes.len() as int + 1])
        } else {
            None::<Service>
        }),
        services_failed(service_step(run, false)),
        services_failed(
            ServiceRunView { outcomes: service_step(run, false).outcomes + later, ..run },
        ),
{
    let after = service_step(run, false);
    assert(after.outcomes[run.outcomes.len() as int] == false);
    assert((after.outcomes + later)[run.outcomes.len() as int] == false);
}

} // verus!
