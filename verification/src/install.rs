//! The order in which missing tools are installed: a step function from
//! the current step and the outcome of the last action to the next step and
//! the next action. The caller performs each action (probing for a program,
//! running a command) and reports its outcome.
use vstd::prelude::*;

use crate::deps::{
    dep_views, missing_dependencies, missing_of_kind, needs_venv, packages_at, positions,
    uv_install_args, Dep, DepKind, DepView, VENV_DIR,
};
use crate::provider::{push_text, strs};

verus! {

broadcast use vstd::string::group_string_axioms;

/// Where the installation stands.
#[derive(Debug, Clone, Copy, PartialEq, Eq)]
pub enum InstallStep {
    /// Nothing done yet.
    Start,
    /// Waiting to learn whether Homebrew is present.
    AwaitBrew,
    /// Installing the missing Homebrew formula at this place in the list.
    BrewInstall(usize),
    /// Waiting for `uv` to be made available.
    AwaitUv,
    /// Waiting to learn whether the virtual environment exists.
    AwaitVenvDir,
    /// Creating the virtual environment.
    CreateVenv,
    /// Installing all missing Python packages in one go.
    BulkInstall,
    /// Installing the missing Python package at this place in the list
    /// alone, after the bulk installation failed.
    RetryOne(usize),
    /// Waiting to learn whether the environment's `bin` directory exists.
    AwaitVenvBin,
    /// Finished.
    Done,
}

/// What the caller does next.
#[derive(Debug, Clone)]
pub enum InstallAction {
    /// Report whether the `brew` program is available.
    CheckBrew,
    /// Run a program with arguments and report whether it succeeded.
    Run(String, Vec<String>),
    /// Make `uv` available (failing on its own if it cannot), then report.
    EnsureUv,
    /// Report whether the virtual environment directory exists.
    CheckVenvDir,
    /// Report whether the virtual environment's `bin` directory exists.
    CheckVenvBin,
    /// Stop with this error message (for a failed environment creation,
    /// followed by what the command printed on its error stream).
    Fail(String),
    /// Stop; `true` when the virtual environment's `bin` directory is to be
    /// used.
    Finish(bool),
}

/// The content of an `InstallAction`.
pub enum InstallActionView {
    CheckBrew,
    Run(Seq<char>, Seq<Seq<char>>),
    EnsureUv,
    CheckVenvDir,
    CheckVenvBin,
    Fail(Seq<char>),
    Finish(bool),
}

impl View for InstallAction {
    type V = InstallActionView;

    open spec fn view(&self) -> InstallActionView {
        match self {
            InstallAction::CheckBrew => InstallActionView::CheckBrew,
            InstallAction::Run(p, a) => InstallActionView::Run(p@, strs(a@)),
            InstallAction::EnsureUv => InstallActionView::EnsureUv,
            InstallAction::CheckVenvDir => InstallActionView::CheckVenvDir,
            InstallAction::CheckVenvBin => InstallActionView::CheckVenvBin,
            InstallAction::Fail(m) => InstallActionView::Fail(m@),
            InstallAction::Finish(b) => InstallActionView::Finish(*b),
        }
    }
}

/// What is to be installed: the dependencies, the positions of the missing
/// Homebrew ones and of the missing Python ones, and whether any dependency
/// needs the virtual environment.
pub struct InstallPlan {
    pub deps: Vec<Dep>,
    pub brew: Vec<usize>,
    pub uv: Vec<usize>,
    pub needs_venv: bool,
}

/// An `InstallPlan` as plain data.
pub struct InstallPlanView {
    pub deps: Seq<DepView>,
    pub brew: Seq<int>,
    pub uv: Seq<int>,
    pub needs_venv: bool,
}

impl View for InstallPlan {
    type V = InstallPlanView;

    open spec fn view(&self) -> InstallPlanView {
        InstallPlanView {
            deps: dep_views(self.deps@),
            brew: positions(self.brew@),
            uv: positions(self.uv@),
            needs_venv: self.needs_venv,
        }
    }
}

/// Every listed position names a dependency, and the lists fit in memory.
pub open spec fn plan_wf(p: InstallPlanView) -> bool {
    &&& p.brew.len() <= usize::MAX
    &&& p.uv.len() <= usize::MAX
    &&& forall|k: int| 0 <= k < p.brew.len() ==> 0 <= #[trigger] p.brew[k] < p.deps.len()
    &&& forall|k: int| 0 <= k < p.uv.len() ==> 0 <= #[trigger] p.uv[k] < p.deps.len()
}

/// `brew install {formula}`.
pub open spec fn brew_install_args(formula: Seq<char>) -> Seq<Seq<char>> {
    seq!["install"@, formula]
}

/// `uv venv ./venv`.
pub open spec fn venv_create_args() -> Seq<Seq<char>> {
    seq!["venv"@, VENV_DIR@]
}

/// `uv pip install --python ./venv` with every missing Python package.
pub open spec fn bulk_install_args(p: InstallPlanView) -> Seq<Seq<char>> {
    seq!["pip"@, "install"@, "--python"@, VENV_DIR@] + packages_at(p.deps, p.uv)
}

/// `uv pip install --python ./venv {package}`, for one package.
pub open spec fn retry_install_args(package: Seq<char>) -> Seq<Seq<char>> {
    seq!["pip"@, "install"@, "--python"@, VENV_DIR@, package]
}

/// The message when Homebrew is needed and absent.
pub open spec fn homebrew_missing_message() -> Seq<char> {
    "Homebrew is required but not installed"@
}

/// The start of the message when the environment cannot be created.
pub open spec fn venv_failed_message() -> Seq<char> {
    "Failed to create venv: "@
}

/// The last step: the environment's `bin` directory is looked for only when
/// some dependency needs it.
pub open spec fn conclude(p: InstallPlanView) -> (InstallStep, InstallActionView) {
    if p.needs_venv {
        (InstallStep::AwaitVenvBin, InstallActionView::CheckVenvBin)
    } else {
        (InstallStep::Done, InstallActionView::Finish(false))
    }
}

/// After the Homebrew formulas: the Python packages, when some are missing.
pub open spec fn python_phase(p: InstallPlanView) -> (InstallStep, InstallActionView) {
    if p.uv.len() > 0 {
        (InstallStep::AwaitUv, InstallActionView::EnsureUv)
    } else {
        conclude(p)
    }
}

/// The next step and action from `step`, given the outcome `ok` of the last
/// action (whether a program is present, a directory exists, or a command
/// succeeded).
pub open spec fn install_next(p: InstallPlanView, step: InstallStep, ok: bool) -> (
    InstallStep,
    InstallActionView,
) {
    match step {
        InstallStep::Start => if p.brew.len() == 0 && p.uv.len() == 0 {
            conclude(p)
        } else if p.brew.len() > 0 {
            (InstallStep::AwaitBrew, InstallActionView::CheckBrew)
        } else {
            (InstallStep::AwaitUv, InstallActionView::EnsureUv)
        },
        InstallStep::AwaitBrew => if ok {
            (
                InstallStep::BrewInstall(0),
                InstallActionView::Run("brew"@, brew_install_args(p.deps[p.brew[0]].package)),
            )
        } else {
            (InstallStep::Done, InstallActionView::Fail(homebrew_missing_message()))
        },
        InstallStep::BrewInstall(k) => if k + 1 < p.brew.len() {
            (
                InstallStep::BrewInstall((k + 1) as usize),
                InstallActionView::Run("brew"@, brew_install_args(p.deps[p.brew[k + 1]].package)),
            )
        } else {
            python_phase(p)
        },
        InstallStep::AwaitUv => (InstallStep::AwaitVenvDir, InstallActionView::CheckVenvDir),
        InstallStep::AwaitVenvDir => if ok {
            (InstallStep::BulkInstall, InstallActionView::Run("uv"@, bulk_install_args(p)))
        } else {
            (InstallStep::CreateVenv, InstallActionView::Run("uv"@, venv_create_args()))
        },
        InstallStep::CreateVenv => if ok {
            (InstallStep::BulkInstall, InstallActionView::Run("uv"@, bulk_install_args(p)))
        } else {
            (InstallStep::Done, InstallActionView::Fail(venv_failed_message()))
        },
        InstallStep::BulkInstall => if ok {
            conclude(p)
        } else {
            (
                InstallStep::RetryOne(0),
                InstallActionView::Run("uv"@, retry_install_args(p.deps[p.uv[0]].package)),
            )
        },
        InstallStep::RetryOne(k) => if k + 1 < p.uv.len() {
            (
                InstallStep::RetryOne((k + 1) as usize),
                InstallActionView::Run("uv"@, retry_install_args(p.deps[p.uv[k + 1]].package)),
            )
        } else {
            conclude(p)
        },
        InstallStep::AwaitVenvBin => (InstallStep::Done, InstallActionView::Finish(ok)),
        InstallStep::Done => (InstallStep::Done, InstallActionView::Finish(false)),
    }
}

/// A step that the installation can stand at for the plan `p`.
pub open spec fn step_ok(p: InstallPlanView, step: InstallStep) -> bool {
    match step {
        InstallStep::AwaitBrew => p.brew.len() > 0,
        InstallStep::BrewInstall(k) => k < p.brew.len(),
        InstallStep::AwaitUv => p.uv.len() > 0,
        InstallStep::AwaitVenvDir => p.uv.len() > 0,
        InstallStep::CreateVenv => p.uv.len() > 0,
        InstallStep::BulkInstall => p.uv.len() > 0,
        InstallStep::RetryOne(k) => k < p.uv.len(),
        InstallStep::AwaitVenvBin => p.needs_venv,
        _ => true,
    }
}

/// How far a step is from the end; every step moves closer.
pub open spec fn steps_left(p: InstallPlanView, step: InstallStep) -> int {
    let nb = p.brew.len() as int;
    let nu = p.uv.len() as int;
    match step {
        InstallStep::Done => 0,
        InstallStep::AwaitVenvBin => 1,
        InstallStep::RetryOne(k) => 2 + nu - k,
        InstallStep::BulkInstall => 3 + nu,
        InstallStep::CreateVenv => 4 + nu,
        InstallStep::AwaitVenvDir => 5 + nu,
        InstallStep::AwaitUv => 6 + nu,
        InstallStep::BrewInstall(k) => 7 + nu + nb - k,
        InstallStep::AwaitBrew => 8 + nu + nb,
        InstallStep::Start => 9 + nu + nb,
    }
}

/// **Law.** The installation always ends: from any step it can stand at
/// but the last, whatever the outcome reported, the next step is one it can
/// stand at and is closer to the end; and it reports the virtual
/// environment for use only when some dependency needs it.
pub proof fn installation_ends(p: InstallPlanView, step: InstallStep, ok: bool)
    requires
        plan_wf(p),
        step_ok(p, step),
        step != InstallStep::Done,
    ensures
        step_ok(p, install_next(p, step, ok).0),
        0 <= steps_left(p, install_next(p, step, ok).0) < steps_left(p, step),
        install_next(p, step, ok).1 == InstallActionView::Finish(true) ==> p.needs_venv,
{
}

/// The step reached and the actions asked for, in order, when the caller
/// starts at `step` and reports `ok` after each of `m` actions.
pub open spec fn drive(p: InstallPlanView, step: InstallStep, ok: bool, m: nat) -> (
    InstallStep,
    Seq<InstallActionView>,
)
    decreases m,
{
    if m == 0 {
        (step, seq![])
    } else {
        let before = drive(p, step, ok, (m - 1) as nat);
        let next = install_next(p, before.0, ok);
        (next.0, before.1.push(next.1))
    }
}

/// `brew install {formula}` for each missing Homebrew dependency, in order.
pub open spec fn brew_runs(p: InstallPlanView) -> Seq<InstallActionView> {
    Seq::new(
        p.brew.len(),
        |j: int| InstallActionView::Run("brew"@, seq!["install"@, p.deps[p.brew[j]].package]),
    )
}

/// `uv pip install --python ./venv {package}` for each missing Python
/// dependency, in order.
pub open spec fn retry_runs(p: InstallPlanView) -> Seq<InstallActionView> {
    Seq::new(
        p.uv.len(),
        |j: int|
            InstallActionView::Run(
                "uv"@,
                seq!["pip"@, "install"@, "--python"@, "./venv"@, p.deps[p.uv[j]].package],
            ),
    )
}

/// Whether an action runs Homebrew or `uv` on a package (the runs counted by
/// the laws below).
pub open spec fn runs_program(a: InstallActionView, program: Seq<char>) -> bool {
    a matches InstallActionView::Run(q, _) && q == program
}

proof fn lemma_brew_prefix(p: InstallPlanView, j: int)
    requires
        plan_wf(p),
        0 <= j < p.brew.len(),
    ensures
        drive(p, InstallStep::Start, true, (j + 2) as nat) == (
            InstallStep::BrewInstall(j as usize),
            seq![InstallActionView::CheckBrew] + brew_runs(p).take(j + 1),
        ),
    decreases j,
{
    reveal_strlit("install");
    assert(drive(p, InstallStep::Start, true, 0) == (InstallStep::Start, Seq::<InstallActionView>::empty()));
    assert(drive(p, InstallStep::Start, true, 1).1 =~= seq![InstallActionView::CheckBrew]);
    if j == 0 {
        assert(brew_runs(p).take(1) =~= seq![brew_runs(p)[0]]);
        assert(drive(p, InstallStep::Start, true, 2).1 =~= seq![InstallActionView::CheckBrew]
            + brew_runs(p).take(1));
    } else {
        lemma_brew_prefix(p, j - 1);
        assert(brew_runs(p).take(j + 1) =~= brew_runs(p).take(j).push(brew_runs(p)[j]));
        assert((seq![InstallActionView::CheckBrew] + brew_runs(p).take(j)).push(brew_runs(p)[j])
            =~= seq![InstallActionView::CheckBrew] + brew_runs(p).take(j + 1));
    }
}

/// **Law.** With Homebrew present and every command succeeding, the
/// installation first checks for Homebrew, then runs `brew install f` once
/// for each missing Homebrew formula `f`, in the order of the dependencies,
/// and then runs Homebrew no more.
pub proof fn brew_formulas_installed_in_order(p: InstallPlanView)
    requires
        plan_wf(p),
        p.brew.len() > 0,
    ensures
        drive(p, InstallStep::Start, true, p.brew.len() + 1).1 == seq![InstallActionView::CheckBrew]
            + brew_runs(p),
        !runs_program(drive(p, InstallStep::Start, true, p.brew.len() + 2).1.last(), "brew"@),
{
    let n = p.brew.len() as int;
    lemma_brew_prefix(p, n - 1);
    assert(brew_runs(p).take(n) =~= brew_runs(p));
    reveal_strlit("brew");
    reveal_strlit("uv");
}

proof fn lemma_retry_prefix(p: InstallPlanView, j: int)
    requires
        plan_wf(p),
        0 <= j < p.uv.len(),
    ensures
        drive(p, InstallStep::BulkInstall, false, (j + 1) as nat) == (
            InstallStep::RetryOne(j as usize),
            retry_runs(p).take(j + 1),
        ),
    decreases j,
{
    reveal_strlit("./venv");
    assert(VENV_DIR@ == "./venv"@);
    assert(drive(p, InstallStep::BulkInstall, false, 0) == (InstallStep::BulkInstall, Seq::<InstallActionView>::empty()));
    if j == 0 {
        assert(retry_runs(p).take(1) =~= seq![retry_runs(p)[0]]);
        assert(drive(p, InstallStep::BulkInstall, false, 1).1 =~= retry_runs(p).take(1));
    } else {
        lemma_retry_prefix(p, j - 1);
        assert(retry_runs(p).take(j + 1) =~= retry_runs(p).take(j).push(retry_runs(p)[j]));
    }
}

/// **Law.** When installing the missing Python packages in one go fails,
/// each of them is installed again alone, once, in the order of the
/// dependencies, whatever those single installations report; after that no
/// package is installed any more.
pub proof fn python_packages_retried_in_order(p: InstallPlanView)
    requires
        plan_wf(p),
        p.uv.len() > 0,
    ensures
        drive(p, InstallStep::BulkInstall, false, p.uv.len()).1 == retry_runs(p),
        !runs_program(drive(p, InstallStep::BulkInstall, false, p.uv.len() + 1).1.last(), "uv"@),
{
    let n = p.uv.len() as int;
    lemma_retry_prefix(p, n - 1);
    assert(retry_runs(p).take(n) =~= retry_runs(p));
    reveal_strlit("uv");
}

/// Runs `program` with `args`.
fn run_action(program: &str, args: Vec<String>) -> (r: InstallAction)
    ensures
        r@ == InstallActionView::Run(program@, strs(args@)),
{
    InstallAction::Run(String::from_str(program), args)
}

fn brew_install(formula: &str) -> (r: InstallAction)
    ensures
        r@ == InstallActionView::Run("brew"@, brew_install_args(formula@)),
{
    let mut a: Vec<String> = Vec::new();
    push_text(&mut a, "install");
    push_text(&mut a, formula);
    assert(strs(a@) =~= brew_install_args(formula@));
    run_action("brew", a)
}

fn retry_install(package: &str) -> (r: InstallAction)
    ensures
        r@ == InstallActionView::Run("uv"@, retry_install_args(package@)),
{
    let mut a: Vec<String> = Vec::new();
    push_text(&mut a, "pip");
    push_text(&mut a, "install");
    push_text(&mut a, "--python");
    push_text(&mut a, VENV_DIR);
    push_text(&mut a, package);
    assert(strs(a@) =~= retry_install_args(package@));
    run_action("uv", a)
}

fn package_of(d: &Dep) -> (r: &'static str)
    ensures
        r@ == d@.package,
{
    match d.kind {
        DepKind::Brew(p) => p,
        DepKind::Uv(p) => p,
    }
}

impl InstallPlan {
    /// The plan for `deps`, where `installed[i]` tells whether `deps[i]`
    /// was found present.
    pub fn new(deps: Vec<Dep>, installed: &Vec<bool>) -> (r: Self)
        requires
            installed.len() == deps.len(),
        ensures
            r@.deps == dep_views(deps@),
            r@.brew == missing_of_kind(dep_views(deps@), installed@, true),
            r@.uv == missing_of_kind(dep_views(deps@), installed@, false),
            r@.needs_venv == exists|i: int| 0 <= i < deps.len() && !(#[trigger] deps@[i]@).brew,
            plan_wf(r@),
    {
        let missing = missing_dependencies(&deps, installed);
        let nv = needs_venv(&deps);
        proof {
            crate::deps::lemma_missing_range(dep_views(deps@), installed@, true);
            crate::deps::lemma_missing_range(dep_views(deps@), installed@, false);
        }
        let r = InstallPlan { deps, brew: missing.brew, uv: missing.uv, needs_venv: nv };
        assert(r@.brew.len() == r.brew.len());
        assert(r@.uv.len() == r.uv.len());
        r
    }

    fn conclude_exec(&self) -> (r: (InstallStep, InstallAction))
        ensures
            (r.0, r.1@) == conclude(self@),
    {
        if self.needs_venv {
            (InstallStep::AwaitVenvBin, InstallAction::CheckVenvBin)
        } else {
            (InstallStep::Done, InstallAction::Finish(false))
        }
    }

    fn bulk_install(&self) -> (r: InstallAction)
        requires
            plan_wf(self@),
        ensures
            r@ == InstallActionView::Run("uv"@, bulk_install_args(self@)),
    {
        assert forall|k: int| 0 <= k < self.uv.len() implies #[trigger] self.uv@[k]
            < self.deps.len() by {
            assert(self@.uv[k] == self.uv@[k] as int);
        }
        let args = uv_install_args(&self.deps, &self.uv);
        run_action("uv", args)
    }

    /// The next step and action from `step`, given the outcome `ok` of the
    /// last action.
    pub fn next(&self, step: InstallStep, ok: bool) -> (r: (InstallStep, InstallAction))
        requires
            plan_wf(self@),
            step_ok(self@, step),
            step != InstallStep::Done,
        ensures
            (r.0, r.1@) == install_next(self@, step, ok),
            step_ok(self@, r.0),
    {
        proof {
            installation_ends(self@, step, ok);
        }
        assert(self@.brew.len() == self.brew.len());
        assert(self@.uv.len() == self.uv.len());
        match step {
            InstallStep::Start => {
                if self.brew.len() == 0 && self.uv.len() == 0 {
                    self.conclude_exec()
                } else if self.brew.len() > 0 {
                    (InstallStep::AwaitBrew, InstallAction::CheckBrew)
                } else {
                    (InstallStep::AwaitUv, InstallAction::EnsureUv)
                }
            },
            InstallStep::AwaitBrew => {
                if ok {
                    assert(0 <= self@.brew[0] < self@.deps.len());
                    let d = &self.deps[self.brew[0]];
                    (InstallStep::BrewInstall(0), brew_install(package_of(d)))
                } else {
                    (
                        InstallStep::Done,
                        InstallAction::Fail(
                            String::from_str("Homebrew is required but not installed"),
                        ),
                    )
                }
            },
            InstallStep::BrewInstall(k) => {
                if k + 1 < self.brew.len() {
                    assert(0 <= self@.brew[k + 1] < self@.deps.len());
                    let d = &self.deps[self.brew[k + 1]];
                    (InstallStep::BrewInstall(k + 1), brew_install(package_of(d)))
                } else if self.uv.len() > 0 {
                    (InstallStep::AwaitUv, InstallAction::EnsureUv)
                } else {
                    self.conclude_exec()
                }
            },
            InstallStep::AwaitUv => (InstallStep::AwaitVenvDir, InstallAction::CheckVenvDir),
            InstallStep::AwaitVenvDir => {
                if ok {
                    (InstallStep::BulkInstall, self.bulk_install())
                } else {
                    let mut a: Vec<String> = Vec::new();
                    push_text(&mut a, "venv");
                    push_text(&mut a, VENV_DIR);
                    assert(strs(a@) =~= venv_create_args());
                    (InstallStep::CreateVenv, run_action("uv", a))
                }
            },
            InstallStep::CreateVenv => {
                if ok {
                    (InstallStep::BulkInstall, self.bulk_install())
                } else {
                    (
                        InstallStep::Done,
                        InstallAction::Fail(String::from_str("Failed to create venv: ")),
                    )
                }
            },
            InstallStep::BulkInstall => {
                if ok {
                    self.conclude_exec()
                } else {
                    assert(0 <= self@.uv[0] < self@.deps.len());
                    let d = &self.deps[self.uv[0]];
                    (InstallStep::RetryOne(0), retry_install(package_of(d)))
                }
            },
            InstallStep::RetryOne(k) => {
                if k + 1 < self.uv.len() {
                    assert(0 <= self@.uv[k + 1] < self@.deps.len());
                    let d = &self.deps[self.uv[k + 1]];
                    (InstallStep::RetryOne(k + 1), retry_install(package_of(d)))
                } else {
                    self.conclude_exec()
                }
            },
            InstallStep::AwaitVenvBin => (InstallStep::Done, InstallAction::Finish(ok)),
            InstallStep::Done => (InstallStep::Done, InstallAction::Finish(false)),
        }
    }
}

// ---------------------------------------------------------------------------
// Making `uv` available
// ---------------------------------------------------------------------------

/// Where making `uv` available stands.
#[derive(Debug, Clone, Copy, PartialEq, Eq)]
pub enum UvStep {
    /// Nothing done yet.
    Start,
    /// Waiting to learn whether `uv` is on `PATH`.
    AwaitFirstCheck,
    /// Waiting for the installer script to download.
    AwaitDownload,
    /// Waiting for the installer script to run.
    AwaitInstall,
    /// Waiting to learn whether the installed `uv` is on `PATH`.
    AwaitSecondCheck,
    /// Waiting to learn whether `uv` lies in the candidate directory at this
    /// place in the list.
    AwaitCandidate(usize),
    /// Finished.
    Done,
}

/// What the caller does next to make `uv` available.
#[derive(Debug, Clone)]
pub enum UvAction {
    /// Report whether the `uv` program is on `PATH`.
    CheckUv,
    /// Run a program with arguments, keeping what it prints, and report
    /// whether it succeeded.
    Download(String, Vec<String>),
    /// Feed the downloaded script to `sh` and report whether it succeeded.
    RunInstaller,
    /// Report whether a file exists at this path.
    CheckFile(String),
    /// `uv` lies in the directory (first text): set `PATH` to the second
    /// text and stop.
    UseDir(String, String),
    /// Stop with this error message (for a failed installer run, followed by
    /// what it printed on its error stream).
    Fail(String),
    /// Stop: `uv` is available.
    Finish,
}

/// The content of a `UvAction`.
pub enum UvActionView {
    CheckUv,
    Download(Seq<char>, Seq<Seq<char>>),
    RunInstaller,
    CheckFile(Seq<char>),
    UseDir(Seq<char>, Seq<char>),
    Fail(Seq<char>),
    Finish,
}

impl View for UvAction {
    type V = UvActionView;

    open spec fn view(&self) -> UvActionView {
        match self {
            UvAction::CheckUv => UvActionView::CheckUv,
            UvAction::Download(p, a) => UvActionView::Download(p@, strs(a@)),
            UvAction::RunInstaller => UvActionView::RunInstaller,
            UvAction::CheckFile(f) => UvActionView::CheckFile(f@),
            UvAction::UseDir(d, p) => UvActionView::UseDir(d@, p@),
            UvAction::Fail(m) => UvActionView::Fail(m@),
            UvAction::Finish => UvActionView::Finish,
        }
    }
}

/// The directories the installer may put `uv` in, under the home directory
/// `home`: `{home}/.local/bin`, then `{home}/.cargo/bin`.
pub open spec fn uv_dir(home: Seq<char>, k: int) -> Seq<char> {
    if k == 0 {
        home + "/.local/bin"@
    } else {
        home + "/.cargo/bin"@
    }
}

/// `uv` in one of those directories.
pub open spec fn uv_file(home: Seq<char>, k: int) -> Seq<char> {
    uv_dir(home, k) + "/uv"@
}

/// `curl -LsSf https://astral.sh/uv/install.sh`.
pub open spec fn uv_download_args() -> Seq<Seq<char>> {
    seq!["-LsSf"@, "https://astral.sh/uv/install.sh"@]
}

/// The next step and action from `step`, given the outcome `ok` of the last
/// action, the home directory `home` and the current `PATH` value `path`.
pub open spec fn uv_next_spec(step: UvStep, ok: bool, home: Seq<char>, path: Seq<char>) -> (
    UvStep,
    UvActionView,
) {
    match step {
        UvStep::Start => (UvStep::AwaitFirstCheck, UvActionView::CheckUv),
        UvStep::AwaitFirstCheck => if ok {
            (UvStep::Done, UvActionView::Finish)
        } else {
            (UvStep::AwaitDownload, UvActionView::Download("curl"@, uv_download_args()))
        },
        UvStep::AwaitDownload => if ok {
            (UvStep::AwaitInstall, UvActionView::RunInstaller)
        } else {
            (UvStep::Done, UvActionView::Fail("Failed to download uv installer"@))
        },
        UvStep::AwaitInstall => if ok {
            (UvStep::AwaitSecondCheck, UvActionView::CheckUv)
        } else {
            (UvStep::Done, UvActionView::Fail("Failed to install uv: "@))
        },
        UvStep::AwaitSecondCheck => if ok {
            (UvStep::Done, UvActionView::Finish)
        } else {
            (UvStep::AwaitCandidate(0), UvActionView::CheckFile(uv_file(home, 0)))
        },
        UvStep::AwaitCandidate(k) => if ok {
            (UvStep::Done, UvActionView::UseDir(uv_dir(home, k as int), uv_dir(home, k as int)
                + ":"@ + path))
        } else if k == 0 {
            (UvStep::AwaitCandidate(1), UvActionView::CheckFile(uv_file(home, 1)))
        } else {
            (UvStep::Done, UvActionView::Fail("uv was installed but not found on PATH"@))
        },
        UvStep::Done => (UvStep::Done, UvActionView::Finish),
    }
}

/// A step that making `uv` available can stand at.
pub open spec fn uv_step_ok(step: UvStep) -> bool {
    match step {
        UvStep::AwaitCandidate(k) => k < 2,
        _ => true,
    }
}

/// How far a step is from the end.
pub open spec fn uv_steps_left(step: UvStep) -> int {
    match step {
        UvStep::Done => 0,
        UvStep::AwaitCandidate(k) => 2 - k,
        UvStep::AwaitSecondCheck => 3,
        UvStep::AwaitInstall => 4,
        UvStep::AwaitDownload => 5,
        UvStep::AwaitFirstCheck => 6,
        UvStep::Start => 7,
    }
}

/// **Law.** Making `uv` available always ends, and `PATH` is changed only
/// to put in front a directory where `uv` was just found: from any step but
/// the last, whatever the outcome, the next step is closer to the end; a
/// `UseDir` action follows only a successful check of `{dir}/uv`, and its
/// new `PATH` is that directory, `:` and the old value.
pub proof fn uv_setup_ends(step: UvStep, ok: bool, home: Seq<char>, path: Seq<char>)
    requires
        uv_step_ok(step),
        step != UvStep::Done,
    ensures
        uv_step_ok(uv_next_spec(step, ok, home, path).0),
        0 <= uv_steps_left(uv_next_spec(step, ok, home, path).0) < uv_steps_left(step),
        uv_next_spec(step, ok, home, path).1 matches UvActionView::UseDir(dir, new_path) ==> ok
            && (step matches UvStep::AwaitCandidate(k) && dir == uv_dir(home, k as int)
            && new_path == dir + ":"@ + path),
{
}

/// **Law.** Whenever a file is checked for `uv` and found, the directory
/// holding it is put in front of `PATH` at once: the file is `{dir}/uv`,
/// and the next action, on success, is to use `dir` with the new `PATH`
/// value `{dir}:{path}`, which ends the process.
pub proof fn found_uv_directory_is_used(
    step: UvStep,
    ok: bool,
    home: Seq<char>,
    path: Seq<char>,
)
    requires
        uv_step_ok(step),
        step != UvStep::Done,
    ensures
        uv_next_spec(step, ok, home, path).1 matches UvActionView::CheckFile(f) ==> ({
            let dir = f.take(f.len() - 3);
            &&& f.len() >= 3
            &&& f == dir + "/uv"@
            &&& uv_next_spec(uv_next_spec(step, ok, home, path).0, true, home, path) == (
                UvStep::Done,
                UvActionView::UseDir(dir, dir + ":"@ + path),
            )
        }),
{
    reveal_strlit("/uv");
    let r = uv_next_spec(step, ok, home, path);
    if let UvActionView::CheckFile(f) = r.1 {
        let k: int = if r.0 == UvStep::AwaitCandidate(0) { 0 } else { 1 };
        assert(f == uv_dir(home, k) + "/uv"@);
        assert(f.take(f.len() - 3) =~= uv_dir(home, k));
    }
}

/// **Law.** After the installer ran and `uv` is still not on `PATH`, the
/// files looked at are `{home}/.local/bin/uv`, then `{home}/.cargo/bin/uv`,
/// and when neither is there the process fails with "uv was installed but
/// not found on PATH".
pub proof fn uv_candidates_in_order(home: Seq<char>, path: Seq<char>)
    ensures
        uv_next_spec(UvStep::AwaitSecondCheck, false, home, path).1 == UvActionView::CheckFile(
            home + "/.local/bin/uv"@,
        ),
        uv_next_spec(uv_next_spec(UvStep::AwaitSecondCheck, false, home, path).0, false, home, path).1
            == UvActionView::CheckFile(home + "/.cargo/bin/uv"@),
        uv_next_spec(
            uv_next_spec(uv_next_spec(UvStep::AwaitSecondCheck, false, home, path).0, false, home, path).0,
            false,
            home,
            path,
        ) == (UvStep::Done, UvActionView::Fail("uv was installed but not found on PATH"@)),
{
    reveal_strlit("/.local/bin");
    reveal_strlit("/.cargo/bin");
    reveal_strlit("/uv");
    reveal_strlit("/.local/bin/uv");
    reveal_strlit("/.cargo/bin/uv");
    assert(home + "/.local/bin"@ + "/uv"@ =~= home + "/.local/bin/uv"@);
    assert(home + "/.cargo/bin"@ + "/uv"@ =~= home + "/.cargo/bin/uv"@);
}

fn uv_dir_exec(home: &str, k: usize) -> (r: String)
    requires
        k < 2,
    ensures
        r@ == uv_dir(home@, k as int),
{
    let mut r = String::from_str(home);
    if k == 0 {
        r.append("/.local/bin");
    } else {
        r.append("/.cargo/bin");
    }
    r
}

fn uv_file_exec(home: &str, k: usize) -> (r: String)
    requires
        k < 2,
    ensures
        r@ == uv_file(home@, k as int),
{
    let mut r = uv_dir_exec(home, k);
    r.append("/uv");
    r
}

/// The next step and action to make `uv` available, from `step` and the
/// outcome `ok` of the last action; `home` is the home directory and `path`
/// the current `PATH` value.
pub fn uv_next(step: UvStep, ok: bool, home: &str, path: &str) -> (r: (UvStep, UvAction))
    requires
        uv_step_ok(step),
        step != UvStep::Done,
    ensures
        (r.0, r.1@) == uv_next_spec(step, ok, home@, path@),
        uv_step_ok(r.0),
{
    proof {
        uv_setup_ends(step, ok, home@, path@);
    }
    match step {
        UvStep::Start => (UvStep::AwaitFirstCheck, UvAction::CheckUv),
        UvStep::AwaitFirstCheck => {
            if ok {
                (UvStep::Done, UvAction::Finish)
            } else {
                let mut a: Vec<String> = Vec::new();
                push_text(&mut a, "-LsSf");
                push_text(&mut a, "https://astral.sh/uv/install.sh");
                assert(strs(a@) =~= uv_download_args());
                (UvStep::AwaitDownload, UvAction::Download(String::from_str("curl"), a))
            }
        },
        UvStep::AwaitDownload => {
            if ok {
                (UvStep::AwaitInstall, UvAction::RunInstaller)
            } else {
                (
                    UvStep::Done,
                    UvAction::Fail(String::from_str("Failed to download uv installer")),
                )
            }
        },
        UvStep::AwaitInstall => {
            if ok {
                (UvStep::AwaitSecondCheck, UvAction::CheckUv)
            } else {
                (UvStep::Done, UvAction::Fail(String::from_str("Failed to install uv: ")))
            }
        },
        UvStep::AwaitSecondCheck => {
            if ok {
                (UvStep::Done, UvAction::Finish)
            } else {
                (UvStep::AwaitCandidate(0), UvAction::CheckFile(uv_file_exec(home, 0)))
            }
        },
        UvStep::AwaitCandidate(k) => {
            if ok {
                let dir = uv_dir_exec(home, k);
                let mut new_path = dir.clone();
                new_path.append(":");
                new_path.append(path);
                (UvStep::Done, UvAction::UseDir(dir, new_path))
            } else if k == 0 {
                (UvStep::AwaitCandidate(1), UvAction::CheckFile(uv_file_exec(home, 1)))
            } else {
                (
                    UvStep::Done,
                    UvAction::Fail(String::from_str("uv was installed but not found on PATH")),
                )
            }
        },
        UvStep::Done => (UvStep::Done, UvAction::Finish),
    }
}

} // verus!
