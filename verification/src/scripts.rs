//! The scripts.

use vstd::prelude::*;

use crate::git::{git_directory_steps, plan_git_directory};
use crate::host::Host;
use crate::packages::{check_repo_steps, plan_check};
use crate::script::Script;
use crate::services::{clear_secrets_steps, plan_restart};
use crate::stats::{first_line_step, read_first_line};
use crate::step::{
    step_views, Goal, GoalView, Routine, StatsStep, StatsStepView, Step, StepView,
};
use crate::vault::{can_be_steps, ShowPasswordOpts};

verus! {

fn script_of(step: Step) -> (r: Script)
    ensures
        r.todo() == seq![step@],
{
    let steps: Vec<Step> = vec![step];
    proof {
        assert(step_views(steps@) =~= seq![step@]);
    }
    Script::new(steps)
}

/// Brings a repository up to date.
pub fn process_git_directory(dir: &str) -> (r: Script)
    ensures
        r.todo() == git_directory_steps(dir@),
{
    Script::new(plan_git_directory(dir))
}

/// Checks the package directories of all distributions. With `do_cleanup` files are moved and
/// removed; with `do_publish` the package repositories are built and uploaded.
pub fn check_repo(host: &Host, do_cleanup: bool, do_publish: bool) -> (r: Script)
    ensures
        r.todo() == check_repo_steps(*host, do_cleanup, do_publish),
{
    Script::new(plan_check(host, do_cleanup, do_publish))
}

/// The first step of a refresh of the host.
pub open spec fn refresh_start(routine: Routine) -> StepView {
    first_line_step("/etc/hostname"@, GoalView::Hostname(routine))
}

/// Refreshes the host.
pub fn authenticate() -> (r: Script)
    ensures
        r.todo() == seq![refresh_start(Routine::Full)],
{
    script_of(read_first_line("/etc/hostname", Goal::Hostname(Routine::Full)))
}

/// Refreshes the host by the basic routine.
pub fn authenticate_basic() -> (r: Script)
    ensures
        r.todo() == seq![refresh_start(Routine::Basic)],
{
    script_of(read_first_line("/etc/hostname", Goal::Hostname(Routine::Basic)))
}

/// Reports about the host.
pub fn system_stats() -> (r: Script)
    ensures
        r.todo() == seq![StepView::Stats(StatsStepView::Weather)],
{
    script_of(Step::Stats(StatsStep::Weather))
}

/// Lists the services that run.
pub fn list_running_services() -> (r: Script)
    ensures
        r.todo() == seq![StepView::Services],
{
    script_of(Step::Services)
}

/// Removes the secrets of the authentication server and restarts the services.
pub fn clear_secrets_restart_systemd(host: &Host) -> (r: Script)
    ensures
        r.todo() == clear_secrets_steps(*host),
{
    Script::new(plan_restart(host))
}

impl ShowPasswordOpts {
    /// Does with passwords what is to be done.
    pub fn process(self, host: &Host) -> (r: Script)
        ensures
            can_be_steps(*host, self, r.todo()),
    {
        Script::new(self.plan(host))
    }
}

} // verus!
